//! The filter orchestrator: owns the query editor and the two JSON panes,
//! and applies the outcome of each filter evaluation — the evaluator itself
//! runs outside this crate and hands its result in as a plain value.

use vstd::prelude::*;

use crate::codec::{parse_json, parse_text, ser_value, serialize_pretty};
use crate::focus::Selected;
use crate::input::Input;
use crate::json::depth;
use crate::pane::{Json, INDENT_STEP};
use crate::text::{append_chars, str_to_chars};
use vstd::string::StringExecFns;

verus! {

broadcast use vstd::std_specs::vec::group_vec_axioms;

/// The message shown when the evaluator's output is not a single JSON value.
pub open spec fn invalid_json_msg() -> Seq<char> {
    seq![
        'E',
        'r',
        'r',
        'o',
        'r',
        ':',
        ' ',
        'I',
        'n',
        'v',
        'a',
        'l',
        'i',
        'd',
        ' ',
        'J',
        'S',
        'O',
        'N',
    ]
}

/// The prefix of a surfaced evaluator diagnostic.
pub open spec fn error_prefix() -> Seq<char> {
    seq!['E', 'r', 'r', 'o', 'r', ':', ' ']
}

/// The views of an evaluation outcome.
pub open spec fn outcome_view(outcome: Result<Vec<char>, Vec<char>>) -> Result<
    Seq<char>,
    Seq<char>,
> {
    match outcome {
        Ok(t) => Ok(t@),
        Err(m) => Err(m@),
    }
}

/// The filtered pane's payload after an evaluation outcome: the evaluator's
/// output round-tripped through the codec and pretty-printed on success, an
/// error-tagged message when that output is not one valid JSON value, and the
/// evaluator's diagnostic behind the error marker on failure.
pub open spec fn filtered_text_after(o: Result<Seq<char>, Seq<char>>) -> Seq<char> {
    match o {
        Ok(text) => match parse_text(text) {
            Some(v) => ser_value(v, 0, INDENT_STEP as nat),
            None => invalid_json_msg(),
        },
        Err(msg) => error_prefix() + msg,
    }
}

/// The editor is marked valid exactly when the evaluator succeeded and its
/// output parsed as one JSON value.
pub open spec fn valid_after(o: Result<Seq<char>, Seq<char>>) -> bool {
    match o {
        Ok(text) => parse_text(text) is Some,
        Err(_) => false,
    }
}

/// A full repaint is owed after an evaluator failure, whose error reporting
/// may have written to the terminal outside this system's control.
pub open spec fn clear_after(old_clear: bool, o: Result<Seq<char>, Seq<char>>) -> bool {
    old_clear || o is Err
}

/// The query editor and the two panes, with the one-shot repaint flag.
pub struct Jq {
    pub input: Input,
    pub json_base: Json,
    pub json_filtered: Json,
    pub need_to_clear: bool,
}

/// `jq` with focus flags set for `s` and nothing else changed.
pub open spec fn jq_with_selected(jq: Jq, s: Selected) -> Jq {
    Jq {
        input: Input { selected: s == Selected::Input, ..jq.input },
        json_base: Json { selected: s == Selected::JsonBase, ..jq.json_base },
        json_filtered: Json { selected: s == Selected::JsonFiltered, ..jq.json_filtered },
        ..jq
    }
}

impl Jq {
    pub open spec fn wf(self) -> bool {
        self.input.wf() && self.json_base.wf() && self.json_filtered.wf()
    }

    /// Build the orchestrator from the loaded document text: the base pane
    /// shows the document pretty-printed, the filtered pane starts empty, the
    /// editor starts with the identity expression `.`. Returns `None` when
    /// the document is not valid JSON, which is fatal at startup.
    pub fn new(json_text: &str) -> (r: Option<Jq>)
        ensures
            r is Some <==> parse_text(json_text@) is Some,
            r matches Some(jq) ==> {
                &&& jq.wf()
                &&& parse_text(json_text@) matches Some(v) && jq.json_base.raw@ == ser_value(
                    v,
                    0,
                    INDENT_STEP as nat,
                )
                &&& jq.json_filtered.raw@ == Seq::<char>::empty()
                &&& jq.input.buffer.text@ == "."@
                &&& jq.input.buffer.cursor == "."@.len()
                &&& jq.input.is_valid
                &&& !jq.need_to_clear
            },
    {
        let chars = str_to_chars(json_text);
        match parse_json(&chars) {
            None => None,
            Some(v) => {
                proof {
                    assert(chars.len() == chars@.len());
                    assert(depth(v.deep()) * INDENT_STEP <= usize::MAX);
                }
                let pretty = serialize_pretty(&v, INDENT_STEP);
                let base_title = make_string("JSON File");
                let filtered_title = make_string("JQ Output");
                let json_base = Json::new(pretty, base_title, None);
                let json_filtered = Json::new(Vec::new(), filtered_title, None);
                let input = Input::new("Input", ".");
                Some(Jq { input, json_base, json_filtered, need_to_clear: false })
            },
        }
    }

    /// Read and reset the one-shot repaint flag.
    pub fn consume_clear(&mut self) -> (r: bool)
        ensures
            r == old(self).need_to_clear,
            *final(self) == (Jq { need_to_clear: false, ..*old(self) }),
    {
        let need_to_clear = self.need_to_clear;
        self.need_to_clear = false;
        need_to_clear
    }

    /// Propagate the focus state into the editor and both panes.
    pub fn set_selected(&mut self, selected: &Selected)
        ensures
            *final(self) == jq_with_selected(*old(self), *selected),
    {
        self.input.set_selected(selected);
        match selected {
            Selected::JsonBase => {
                self.json_base.set_selected(true);
                self.json_filtered.set_selected(false);
            },
            Selected::JsonFiltered => {
                self.json_base.set_selected(false);
                self.json_filtered.set_selected(true);
            },
            _ => {
                self.json_base.set_selected(false);
                self.json_filtered.set_selected(false);
            },
        }
        proof {
            assert(self.input == (Input {
                selected: *selected == Selected::Input,
                ..old(self).input
            }));
        }
    }

    /// Apply one filter-evaluation outcome: refresh the filtered pane's
    /// payload, mark the editor valid or invalid, and demand a repaint after
    /// an evaluator failure. The base pane and the editor text never change.
    pub fn apply_filter(&mut self, outcome: Result<Vec<char>, Vec<char>>)
        requires
            old(self).wf(),
        ensures
            final(self).wf(),
            final(self).json_filtered.raw@ == filtered_text_after(outcome_view(outcome)),
            final(self).input.is_valid == valid_after(outcome_view(outcome)),
            final(self).need_to_clear == clear_after(
                old(self).need_to_clear,
                outcome_view(outcome),
            ),
            final(self).json_base == old(self).json_base,
            final(self).input.buffer == old(self).input.buffer,
            final(self).input.prompt == old(self).input.prompt,
            final(self).input.selected == old(self).input.selected,
            final(self).json_filtered.selected == old(self).json_filtered.selected,
            final(self).json_filtered.title == old(self).json_filtered.title,
            final(self).json_filtered.right_title == old(self).json_filtered.right_title,
    {
        match outcome {
            Ok(text) => {
                match parse_json(&text) {
                    Some(v) => {
                        proof {
                            assert(text.len() == text@.len());
                            assert(depth(v.deep()) * INDENT_STEP <= usize::MAX);
                        }
                        let pretty = serialize_pretty(&v, INDENT_STEP);
                        self.json_filtered.set_json(pretty);
                        self.input.set_valid(true);
                    },
                    None => {
                        let msg = invalid_json_vec();
                        self.json_filtered.set_json(msg);
                        self.input.set_valid(false);
                    },
                }
            },
            Err(error) => {
                let mut msg = error_prefix_vec();
                append_chars(&mut msg, &error);
                self.json_filtered.set_json(msg);
                self.input.set_valid(false);
                self.need_to_clear = true;
            },
        }
    }
}

/// The owned form of a literal title.
fn make_string(s: &str) -> (r: String)
    ensures
        r@ == s@,
{
    String::from_str(s)
}

fn invalid_json_vec() -> (r: Vec<char>)
    ensures
        r@ == invalid_json_msg(),
{
    let mut v: Vec<char> = Vec::new();
    v.push('E');
    v.push('r');
    v.push('r');
    v.push('o');
    v.push('r');
    v.push(':');
    v.push(' ');
    v.push('I');
    v.push('n');
    v.push('v');
    v.push('a');
    v.push('l');
    v.push('i');
    v.push('d');
    v.push(' ');
    v.push('J');
    v.push('S');
    v.push('O');
    v.push('N');
    proof {
        assert(v@ =~= invalid_json_msg());
    }
    v
}

fn error_prefix_vec() -> (r: Vec<char>)
    ensures
        r@ == error_prefix(),
{
    let mut v: Vec<char> = Vec::new();
    v.push('E');
    v.push('r');
    v.push('r');
    v.push('o');
    v.push('r');
    v.push(':');
    v.push(' ');
    proof {
        assert(v@ =~= error_prefix());
    }
    v
}

} // verus!
