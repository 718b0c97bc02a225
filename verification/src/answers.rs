//! Answers of a language model: the fix blocks that the prompt asks for.

use crate::js::versions::{number_of, parse_number};
use crate::model::{
    FixConfidence, FixSource, LlmFixRequest, LlmFixRequestView, PlannedFix, PlannedFixView,
    TextEdit, TextEditView,
};
use crate::text::{lines, lines_of, owned, same, strip_prefix, trim, trimmed, without_prefix};
use crate::views::{append_one, only};
use vstd::prelude::*;

verus! {

broadcast use vstd::string::group_string_axioms;

/// How far the reading of an answer has come: the edits so far, whether a
/// block is open, and what the open block says.
#[verifier::ext_equal]
pub ghost struct Reading {
    pub edits: Seq<TextEditView>,
    pub open: bool,
    pub line: Option<u32>,
    pub old_text: Option<Seq<char>>,
    pub new_text: Option<Seq<char>>,
}

/// The line that a text numbers.
pub open spec fn line_of(text: Seq<char>) -> Option<u32> {
    match number_of(trimmed(text)) {
        Some(n) => if n <= u32::MAX {
            Some(n as u32)
        } else {
            None
        },
        None => None,
    }
}

/// The edit that an answer to a request asks for.
pub open spec fn answer_edit(
    rule_id: Seq<char>,
    line: u32,
    old_text: Seq<char>,
    new_text: Seq<char>,
) -> TextEditView {
    TextEditView {
        line,
        old_text,
        new_text,
        rule_id,
        description: "LLM-generated fix"@,
        replace_all: false,
    }
}

/// One more line of the answer. A block that ends without a line, an old
/// text and a new text is left out, and so is all text outside of blocks.
pub open spec fn after_reply_line(rule_id: Seq<char>, s: Reading, line: Seq<char>) -> Reading {
    if !s.open {
        Reading {
            edits: s.edits,
            open: trimmed(line) == "```fix"@,
            line: None,
            old_text: None,
            new_text: None,
        }
    } else if trimmed(line) == "```"@ {
        Reading {
            edits: match (s.line, s.old_text, s.new_text) {
                (Some(l), Some(o), Some(n)) => s.edits.push(answer_edit(rule_id, l, o, n)),
                _ => s.edits,
            },
            open: false,
            line: None,
            old_text: None,
            new_text: None,
        }
    } else {
        match without_prefix(line, "LINE:"@) {
            Some(rest) => Reading { line: line_of(rest), ..s },
            None => match without_prefix(line, "OLD:"@) {
                Some(rest) => Reading { old_text: Some(rest), ..s },
                None => match without_prefix(line, "NEW:"@) {
                    Some(rest) => Reading { new_text: Some(rest), ..s },
                    None => s,
                },
            },
        }
    }
}

/// The first `n` lines of the answer.
pub open spec fn reading(rule_id: Seq<char>, all: Seq<Seq<char>>, n: int) -> Reading
    decreases n,
{
    if n <= 0 {
        Reading { edits: Seq::empty(), open: false, line: None, old_text: None, new_text: None }
    } else {
        after_reply_line(rule_id, reading(rule_id, all, n - 1), all[n - 1])
    }
}

/// The fix that an answer to a request asks for.
pub open spec fn answered(request: LlmFixRequestView, reply: Seq<char>) -> PlannedFixView {
    let all = lines_of(reply);
    PlannedFixView {
        edits: reading(request.rule_id, all, all.len() as int).edits,
        confidence: FixConfidence::Medium,
        source: FixSource::Llm,
        rule_id: request.rule_id,
        file_uri: request.file_uri,
        line: request.line,
        description: "LLM-generated fix"@,
    }
}

fn read_line_number(text: &str) -> (r: Option<u32>)
    ensures
        r == line_of(text@),
{
    match parse_number(trim(text)) {
        Some(n) => {
            if n <= u32::MAX as u64 {
                Some(n as u32)
            } else {
                None
            }
        },
        None => None,
    }
}

/// Reads the fix blocks of an answer to a request.
pub fn parse_answer(request: &LlmFixRequest, reply: &str) -> (r: Vec<PlannedFix>)
    ensures
        r.deep_view() == seq![answered(request.deep_view(), reply@)],
{
    let all = lines(reply);
    let ghost view = all.deep_view();
    let ghost rule = request.rule_id@;
    let mut edits: Vec<TextEdit> = Vec::new();
    let mut open = false;
    let mut line: Option<u32> = None;
    let mut old_text: Option<String> = None;
    let mut new_text: Option<String> = None;
    let mut i: usize = 0;
    assert(edits.deep_view() =~= Seq::<TextEditView>::empty());
    while i < all.len()
        invariant
            i <= all@.len(),
            view == all.deep_view(),
            rule == request.rule_id@,
            (Reading {
                edits: edits.deep_view(),
                open,
                line,
                old_text: old_text.deep_view(),
                new_text: new_text.deep_view(),
            }) == reading(rule, view, i as int),
        decreases all@.len() - i,
    {
        assert(view[i as int] == all@[i as int]@);
        let one = all[i].as_str();
        if !open {
            open = same(trim(one), "```fix");
            line = None;
            old_text = None;
            new_text = None;
        } else if same(trim(one), "```") {
            match (line, old_text, new_text) {
                (Some(l), Some(o), Some(n)) => {
                    let edit = TextEdit {
                        line: l,
                        old_text: o,
                        new_text: n,
                        rule_id: request.rule_id.clone(),
                        description: owned("LLM-generated fix"),
                        replace_all: false,
                    };
                    append_one(&mut edits, edit);
                },
                _ => {},
            }
            open = false;
            line = None;
            old_text = None;
            new_text = None;
        } else {
            match strip_prefix(one, "LINE:") {
                Some(rest) => {
                    line = read_line_number(rest);
                },
                None => match strip_prefix(one, "OLD:") {
                    Some(rest) => {
                        old_text = Some(owned(rest));
                    },
                    None => match strip_prefix(one, "NEW:") {
                        Some(rest) => {
                            new_text = Some(owned(rest));
                        },
                        None => {},
                    },
                },
            }
        }
        i = i + 1;
    }
    assert(view.len() == all@.len());
    only(
        PlannedFix {
            edits,
            confidence: FixConfidence::Medium,
            source: FixSource::Llm,
            rule_id: request.rule_id.clone(),
            file_uri: request.file_uri.clone(),
            line: request.line,
            description: owned("LLM-generated fix"),
        },
    )
}

} // verus!
