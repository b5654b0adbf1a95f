//! A JSON display pane: the raw text payload, its cached styled rendering,
//! scroll state, and focus/error flags. The rendering and the scroll bounds
//! are a pure function of the payload, recomputed on every payload change.

use vstd::prelude::*;

use crate::codec::{parse_json, parse_text};
use crate::json::depth;
use crate::keys::{KeyCode, KeyInput};
use crate::render::{
    doc_view, frag, render_document, render_value, Fragment, SpecFrag, StyleRole, StyledLine,
};
use crate::text::append_chars;
use crate::viewport::Viewport;

verus! {

broadcast use vstd::std_specs::vec::group_vec_axioms;

/// The indent step of the styled rendering and of pretty-printed payloads.
pub const INDENT_STEP: usize = 2;

/// The payload starts with the error marker `Error: `.
pub open spec fn starts_error(s: Seq<char>) -> bool {
    s.len() >= 7 && s.subrange(0, 7) == seq!['E', 'r', 'r', 'o', 'r', ':', ' ']
}

/// The styled lines a pane shows for a raw payload: the structural rendering
/// when the payload parses as JSON, else the payload itself as a single line
/// tagged invalid when it carries the error marker and valid otherwise.
pub open spec fn pane_lines(raw: Seq<char>) -> Seq<Seq<SpecFrag>> {
    match parse_text(raw) {
        Some(v) => render_value(v, 0, INDENT_STEP as nat),
        None => seq![
            seq![
                frag(
                    raw,
                    if starts_error(raw) {
                        StyleRole::Invalid
                    } else {
                        StyleRole::Valid
                    },
                ),
            ],
        ],
    }
}

/// The viewport after one navigation key: up and down scroll by one line,
/// page up and page down by ten.
pub open spec fn viewport_after_key(vp: Viewport, code: KeyCode) -> Viewport {
    let cap: int = if vp.line_count == 0 {
        0
    } else {
        vp.line_count - 1
    };
    match code {
        KeyCode::Up => Viewport {
            scroll_offset: (if vp.scroll_offset >= 1 {
                vp.scroll_offset - 1
            } else {
                0
            }) as usize,
            ..vp
        },
        KeyCode::Down => Viewport {
            scroll_offset: (if vp.scroll_offset + 1 <= cap {
                vp.scroll_offset + 1
            } else {
                cap
            }) as usize,
            ..vp
        },
        KeyCode::PageUp => Viewport {
            scroll_offset: (if vp.scroll_offset >= 10 {
                vp.scroll_offset - 10
            } else {
                0
            }) as usize,
            ..vp
        },
        KeyCode::PageDown => Viewport {
            scroll_offset: (if vp.scroll_offset + 10 <= cap {
                vp.scroll_offset + 10
            } else {
                cap
            }) as usize,
            ..vp
        },
        _ => vp,
    }
}

/// One JSON display pane.
pub struct Json {
    pub raw: Vec<char>,
    pub lines: Vec<StyledLine>,
    pub viewport: Viewport,
    pub is_error: bool,
    pub selected: bool,
    pub title: String,
    pub right_title: Option<String>,
}

impl Json {
    /// The cached rendering, the scroll bounds and the error flag all agree
    /// with the raw payload.
    pub open spec fn wf(self) -> bool {
        &&& doc_view(self.lines@) == pane_lines(self.raw@)
        &&& self.viewport.line_count == self.lines@.len()
        &&& self.viewport.wf()
        &&& self.lines@.len() >= 1
        &&& self.is_error == (parse_text(self.raw@) is None && starts_error(self.raw@))
    }

    /// A fresh pane showing `payload`.
    pub fn new(payload: Vec<char>, title: String, right_title: Option<String>) -> (r: Json)
        ensures
            r.wf(),
            r.raw@ == payload@,
            !r.selected,
            r.title == title,
            r.right_title == right_title,
            r.viewport.scroll_offset == 0,
            r.viewport.visible_height == 0,
    {
        let mut pane = Json {
            raw: Vec::new(),
            lines: Vec::new(),
            viewport: Viewport::new(0, 0),
            is_error: false,
            selected: false,
            title,
            right_title,
        };
        pane.set_json(payload);
        pane
    }

    /// Replace the payload: re-render, re-derive the error flag, and re-clamp
    /// the scroll offset into the new line count.
    pub fn set_json(&mut self, json: Vec<char>)
        ensures
            final(self).raw@ == json@,
            final(self).wf(),
            final(self).viewport.visible_height == old(self).viewport.visible_height,
            final(self).viewport.scroll_offset == if old(self).viewport.scroll_offset <= final(
                self).viewport.max_offset() {
                old(self).viewport.scroll_offset as int
            } else {
                final(self).viewport.max_offset()
            },
            final(self).selected == old(self).selected,
            final(self).title == old(self).title,
            final(self).right_title == old(self).right_title,
    {
        match parse_json(&json) {
            Some(v) => {
                proof {
                    assert(json.len() == json@.len());
                    assert(depth(v.deep()) * INDENT_STEP <= usize::MAX);
                }
                self.lines = render_document(&v, INDENT_STEP);
                self.is_error = false;
            },
            None => {
                let is_err = starts_error_exec(&json);
                let mut t: Vec<char> = Vec::new();
                append_chars(&mut t, &json);
                proof {
                    assert(t@ =~= json@);
                }
                let role = if is_err {
                    StyleRole::Invalid
                } else {
                    StyleRole::Valid
                };
                let mut fv: Vec<Fragment> = Vec::new();
                fv.push(Fragment { text: t, role });
                let line = StyledLine { frags: fv };
                proof {
                    assert(line@ =~= seq![frag(json@, role)]);
                }
                let mut ls: Vec<StyledLine> = Vec::new();
                ls.push(line);
                proof {
                    assert(doc_view(ls@) =~~= pane_lines(json@));
                }
                self.lines = ls;
                self.is_error = is_err;
            },
        }
        self.raw = json;
        let n = self.lines.len();
        self.viewport.set_line_count(n);
    }

    /// The raw payload.
    pub fn json(&self) -> (r: &Vec<char>)
        ensures
            r@ == self.raw@,
    {
        &self.raw
    }

    pub fn set_selected(&mut self, selected: bool)
        ensures
            *final(self) == (Json { selected, ..*old(self) }),
    {
        self.selected = selected;
    }

    pub fn selected(&self) -> (r: bool)
        ensures
            r == self.selected,
    {
        self.selected
    }

    /// The cached styled lines.
    pub fn lines(&self) -> (r: &Vec<StyledLine>)
        ensures
            r == &self.lines,
    {
        &self.lines
    }

    /// Fit the viewport to the drawing area's height.
    pub fn set_visible_height(&mut self, h: usize)
        ensures
            *final(self) == (Json {
                viewport: Viewport { visible_height: h, ..old(self).viewport },
                ..*old(self)
            }),
    {
        self.viewport.visible_height = h;
    }

    /// Scroll on navigation keys; everything else is ignored.
    pub fn handle_event(&mut self, k: &KeyInput)
        requires
            old(self).wf(),
        ensures
            *final(self) == (Json {
                viewport: viewport_after_key(old(self).viewport, k.code),
                ..*old(self)
            }),
            final(self).wf(),
    {
        match k.code {
            KeyCode::Up => self.viewport.scroll_up(1),
            KeyCode::Down => self.viewport.scroll_down(1),
            KeyCode::PageUp => self.viewport.scroll_up(10),
            KeyCode::PageDown => self.viewport.scroll_down(10),
            _ => {},
        }
    }
}

/// Whether `v` starts with the error marker `Error: `.
pub fn starts_error_exec(v: &Vec<char>) -> (r: bool)
    ensures
        r == starts_error(v@),
{
    if v.len() < 7 {
        return false;
    }
    let r = v[0] == 'E' && v[1] == 'r' && v[2] == 'r' && v[3] == 'o' && v[4] == 'r' && v[5] == ':'
        && v[6] == ' ';
    proof {
        if r {
            assert(v@.subrange(0, 7) =~= seq!['E', 'r', 'r', 'o', 'r', ':', ' ']);
        } else {
            if v@.subrange(0, 7) == seq!['E', 'r', 'r', 'o', 'r', ':', ' '] {
                assert(v@[0] == v@.subrange(0, 7)[0]);
                assert(v@[1] == v@.subrange(0, 7)[1]);
                assert(v@[2] == v@.subrange(0, 7)[2]);
                assert(v@[3] == v@.subrange(0, 7)[3]);
                assert(v@[4] == v@.subrange(0, 7)[4]);
                assert(v@[5] == v@.subrange(0, 7)[5]);
                assert(v@[6] == v@.subrange(0, 7)[6]);
            }
        }
    }
    r
}

} // verus!
