//! Paths: the name, the directory and the extension of what a path and a
//! name are joined to.

use crate::paths::{
    before_stretch, component_end, extension_of, joined_path, last_dot, last_slash, name_of,
    parent_of, rooted, start_len, stem_of, stretch_start,
};
use vstd::prelude::*;

verus! {

broadcast use vstd::string::group_string_axioms;

/// The name of a file or a directory: no separator stands in it, and it is
/// not one of the two that stand for a directory.
pub open spec fn is_plain_name(name: Seq<char>) -> bool {
    name.len() > 0 && !name.contains('/') && name != seq!['.'] && name != seq!['.', '.']
}

/// The path of a directory in which a name can stand: it is not empty and
/// does not end in a separator.
pub open spec fn is_plain_dir(dir: Seq<char>) -> bool {
    dir.len() > 0 && dir.last() != '/'
}

proof fn lemma_last_slash(path: Seq<char>, from: int, e: int, k: int)
    requires
        0 <= from <= k < e <= path.len(),
        path[k] == '/',
        forall|j: int| k < j < e ==> path[j] != '/',
    ensures
        last_slash(path, from, e) == Some(k),
    decreases e,
{
    if k < e - 1 {
        lemma_last_slash(path, from, e - 1, k);
    }
}

proof fn lemma_dots_are_no_names(name: Seq<char>)
    requires
        is_plain_name(name),
    ensures
        name != "."@,
        name != ".."@,
{
    reveal_strlit(".");
    reveal_strlit("..");
    assert("."@ =~= seq!['.']);
    assert(".."@ =~= seq!['.', '.']);
}

proof fn lemma_named(dir: Seq<char>, name: Seq<char>)
    requires
        dir.len() > 0,
        is_plain_name(name),
    ensures
        ({
            let path = dir + seq!['/'] + name;
            let e = path.len() as int;
            &&& component_end(path, e) == e
            &&& stretch_start(path, e) == dir.len() + 1
            &&& before_stretch(path, e) == dir.len()
            &&& e > start_len(path)
            &&& path.subrange(dir.len() as int + 1, e) == name
        }),
{
    let path = dir + seq!['/'] + name;
    let e = path.len() as int;
    let k = dir.len() as int;
    assert(path[k] == '/');
    assert forall|j: int| k < j < e implies path[j] != '/' by {
        assert(path[j] == name[j - k - 1]);
        assert(name.contains(name[j - k - 1]));
    }
    lemma_last_slash(path, start_len(path), e, k);
    assert(path.subrange(k + 1, e) =~= name);
    lemma_dots_are_no_names(name);
}

/// A name joined to a directory is the name at the end of the path, and the
/// path stands one separator behind the directory.
pub proof fn law_joined_name(dir: Seq<char>, name: Seq<char>)
    requires
        is_plain_dir(dir),
        is_plain_name(name),
    ensures
        joined_path(dir, name) == dir + seq!['/'] + name,
        name_of(joined_path(dir, name)) == Some(name),
        joined_path(dir, seq!['/'] + name) == seq!['/'] + name,
        joined_path(Seq::empty(), name) == name,
{
    reveal_strlit("/");
    assert("/"@ =~= seq!['/']);
    assert(!rooted(name)) by {
        if rooted(name) {
            assert(name.contains(name[0]));
        }
    }
    lemma_named(dir, name);
    assert((seq!['/'] + name)[0] == '/');
    assert(Seq::<char>::empty() + name =~= name);
    lemma_dots_are_no_names(name);
}

/// The directory of what a name is joined to is the directory that the name
/// was joined to.
pub proof fn law_parent_of_a_joined_name(top: Seq<char>, dir: Seq<char>, name: Seq<char>)
    requires
        is_plain_dir(top),
        is_plain_name(dir),
        is_plain_name(name),
    ensures
        parent_of(joined_path(joined_path(top, dir), name)) == Some(joined_path(top, dir)),
{
    law_joined_name(top, dir);
    let base = top + seq!['/'] + dir;
    assert(base.last() == dir.last());
    assert(dir.last() != '/') by {
        assert(dir.contains(dir.last()));
    }
    law_joined_name(base, name);
    let path = base + seq!['/'] + name;
    lemma_named(base, name);
    let k = base.len() as int;
    // The end of the directory within the whole path
    lemma_end_within(top, dir, name);
    assert(path.take(k) =~= base);
}

proof fn lemma_end_within(top: Seq<char>, dir: Seq<char>, name: Seq<char>)
    requires
        is_plain_dir(top),
        is_plain_name(dir),
        is_plain_name(name),
    ensures
        ({
            let base = top + seq!['/'] + dir;
            let path = base + seq!['/'] + name;
            component_end(path, base.len() as int) == base.len()
        }),
{
    let base = top + seq!['/'] + dir;
    let path = base + seq!['/'] + name;
    let e = base.len() as int;
    let k = top.len() as int;
    assert(path[k] == '/');
    assert forall|j: int| k < j < e implies path[j] != '/' by {
        assert(path[j] == dir[j - k - 1]);
        assert(dir.contains(dir[j - k - 1]));
    }
    lemma_last_slash(path, start_len(path), e, k);
    assert(path.subrange(k + 1, e) =~= dir);
    lemma_dots_are_no_names(dir);
}

proof fn lemma_last_dot(s: Seq<char>, i: int, k: int)
    requires
        0 <= k < i <= s.len(),
        s[k] == '.',
        forall|j: int| k < j < i ==> s[j] != '.',
    ensures
        last_dot(s, i) == k,
    decreases i,
{
    if k < i - 1 {
        lemma_last_dot(s, i - 1, k);
    }
}

proof fn lemma_no_dot(s: Seq<char>, i: int)
    requires
        0 <= i <= s.len(),
        !s.contains('.'),
    ensures
        last_dot(s, i) == -1,
    decreases i,
{
    if i > 0 {
        assert(s.contains(s[i - 1]));
        lemma_no_dot(s, i - 1);
    }
}

/// The extension of a file is what stands behind the last dot of its name,
/// and the rest of the name stands before it.
pub proof fn law_extension(dir: Seq<char>, stem: Seq<char>, ext: Seq<char>)
    requires
        is_plain_dir(dir),
        stem.len() > 0,
        !stem.contains('/'),
        !ext.contains('/'),
        !ext.contains('.'),
        ext.len() > 0,
    ensures
        extension_of(joined_path(dir, stem + seq!['.'] + ext)) == Some(ext),
        stem_of(joined_path(dir, stem + seq!['.'] + ext)) == Some(stem),
{
    let name = stem + seq!['.'] + ext;
    let k = stem.len() as int;
    assert(is_plain_name(name)) by {
        assert(name.len() >= 3);
        assert(!name.contains('/')) by {
            if name.contains('/') {
                let j = choose|j: int| 0 <= j < name.len() && name[j] == '/';
                if j < k {
                    assert(stem[j] == '/');
                } else if j > k {
                    assert(ext[j - k - 1] == '/');
                }
            }
        }
    }
    law_joined_name(dir, name);
    assert(name[k] == '.');
    assert forall|j: int| k < j < name.len() implies name[j] != '.' by {
        assert(name[j] == ext[j - k - 1]);
        assert(ext.contains(ext[j - k - 1]));
    }
    lemma_last_dot(name, name.len() as int, k);
    assert(name.skip(k + 1) =~= ext);
    assert(name.take(k) =~= stem);
}

/// A name without a dot has no extension.
pub proof fn law_no_extension(dir: Seq<char>, name: Seq<char>)
    requires
        is_plain_dir(dir),
        is_plain_name(name),
        !name.contains('.'),
    ensures
        extension_of(joined_path(dir, name)) is None,
        stem_of(joined_path(dir, name)) == Some(name),
{
    law_joined_name(dir, name);
    lemma_no_dot(name, name.len() as int);
}

/// A name joined to a directory that ends in a separator stands right behind
/// it.
pub proof fn law_joined_behind_a_separator(dir: Seq<char>, name: Seq<char>)
    requires
        is_plain_name(name),
    ensures
        joined_path(dir + seq!['/'], name) == dir + seq!['/'] + name,
        joined_path(seq!['/'], name) == seq!['/'] + name,
{
    assert(!rooted(name)) by {
        if rooted(name) {
            assert(name.contains(name[0]));
        }
    }
    assert((dir + seq!['/']).last() == '/');
}

/// A dot at the start of a name begins no extension.
pub proof fn law_hidden_file_has_no_extension(dir: Seq<char>, name: Seq<char>)
    requires
        is_plain_dir(dir),
        name.len() > 0,
        !name.contains('.'),
        !name.contains('/'),
    ensures
        extension_of(joined_path(dir, seq!['.'] + name)) is None,
        stem_of(joined_path(dir, seq!['.'] + name)) == Some(seq!['.'] + name),
{
    let full = seq!['.'] + name;
    assert forall|j: int| 0 < j < full.len() implies full[j] != '.' && full[j] != '/' by {
        assert(full[j] == name[j - 1]);
        assert(name.contains(name[j - 1]));
    }
    assert(is_plain_name(full)) by {
        assert(full.len() >= 2);
        if full.contains('/') {
            let j = choose|j: int| 0 <= j < full.len() && full[j] == '/';
        }
        assert(full[1] != '.');
    }
    law_joined_name(dir, full);
    lemma_last_dot(full, full.len() as int, 0);
}

} // verus!
