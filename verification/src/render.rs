//! The structural JSON renderer: turns a [`JsonValue`] into styled lines —
//! ordered fragments of text, each tagged with a semantic color role —
//! depth-first, with deterministic indentation and punctuation.
//!
//! Scalars append one fragment to the current line. A non-empty container
//! appends its opening bracket, gives every child its own line indented one
//! step further (object children preceded by a quoted-key fragment), appends
//! a comma to each child's last line except the final one, and closes on a
//! fresh line at the parent indent. Empty containers stay on one line.

use vstd::prelude::*;

use crate::codec::spaces;
use crate::json::{
    deep_elems, deep_members, depth, depth_elems, depth_members, lemma_deep_elems,
    lemma_deep_members, lemma_depth_elems_bound, lemma_depth_members_bound, JsonSpec, JsonValue,
};
use crate::text::append_chars;

verus! {

broadcast use vstd::std_specs::vec::group_vec_axioms;

/// The semantic color role of one text fragment.
#[derive(Clone, Copy, PartialEq, Eq, Structural, Debug)]
pub enum StyleRole {
    Key,
    Str,
    Num,
    Bool,
    Null,
    Default,
    Cursor,
    Valid,
    Invalid,
}

/// The mathematical shape of a fragment: its text and role.
pub struct SpecFrag {
    pub text: Seq<char>,
    pub role: StyleRole,
}

/// One styled piece of text on a line.
#[derive(Debug)]
pub struct Fragment {
    pub text: Vec<char>,
    pub role: StyleRole,
}

impl View for Fragment {
    type V = SpecFrag;

    open spec fn view(&self) -> SpecFrag {
        SpecFrag { text: self.text@, role: self.role }
    }
}

/// One line of a styled document: an ordered run of fragments.
#[derive(Debug)]
pub struct StyledLine {
    pub frags: Vec<Fragment>,
}

impl View for StyledLine {
    type V = Seq<SpecFrag>;

    open spec fn view(&self) -> Seq<SpecFrag> {
        Seq::new(self.frags@.len(), |i: int| self.frags@[i]@)
    }
}

/// The views of a document's lines.
pub open spec fn doc_view(lines: Seq<StyledLine>) -> Seq<Seq<SpecFrag>> {
    Seq::new(lines.len(), |i: int| lines[i]@)
}

pub open spec fn frag(text: Seq<char>, role: StyleRole) -> SpecFrag {
    SpecFrag { text, role }
}

/// The styled lines of `v` rendered at indent `ind` with step `step`. The
/// first line holds what is appended to the line the value starts on; the
/// remaining entries are new lines.
pub open spec fn render_value(v: JsonSpec, ind: nat, step: nat) -> Seq<Seq<SpecFrag>>
    decreases v, 0nat,
{
    match v {
        JsonSpec::Null => seq![seq![frag(seq!['n', 'u', 'l', 'l'], StyleRole::Null)]],
        JsonSpec::Bool(b) => if b {
            seq![seq![frag(seq!['t', 'r', 'u', 'e'], StyleRole::Bool)]]
        } else {
            seq![seq![frag(seq!['f', 'a', 'l', 's', 'e'], StyleRole::Bool)]]
        },
        JsonSpec::Num(l) => seq![seq![frag(l, StyleRole::Num)]],
        JsonSpec::Str(t) => seq![seq![frag(seq!['"'] + t + seq!['"'], StyleRole::Str)]],
        JsonSpec::Array(es) => if es.len() == 0 {
            seq![
                seq![
                    frag(seq!['['], StyleRole::Default),
                    frag(seq![']'], StyleRole::Default),
                ],
            ]
        } else {
            seq![seq![frag(seq!['['], StyleRole::Default)]] + render_elems(es, 0, ind, step)
                + seq![
                seq![
                    frag(spaces(ind), StyleRole::Default),
                    frag(seq![']'], StyleRole::Default),
                ],
            ]
        },
        JsonSpec::Object(ms) => if ms.len() == 0 {
            seq![
                seq![
                    frag(seq!['{'], StyleRole::Default),
                    frag(seq!['}'], StyleRole::Default),
                ],
            ]
        } else {
            seq![seq![frag(seq!['{'], StyleRole::Default)]] + render_members(ms, 0, ind, step)
                + seq![
                seq![
                    frag(spaces(ind), StyleRole::Default),
                    frag(seq!['}'], StyleRole::Default),
                ],
            ]
        },
    }
}

/// The lines of array children `es[i..]`, one child per line group, commas
/// appended to every child's last line but the final child's.
pub open spec fn render_elems(es: Seq<JsonSpec>, i: int, ind: nat, step: nat) -> Seq<
    Seq<SpecFrag>,
>
    decreases es, es.len() - i + 1,
{
    if !(0 <= i < es.len()) {
        Seq::empty()
    } else {
        let r = render_value(es[i], (ind + step) as nat, step);
        let child = seq![seq![frag(spaces((ind + step) as nat), StyleRole::Default)] + r[0]]
            + r.drop_first();
        let child2 = if i + 1 < es.len() {
            child.update(
                child.len() - 1,
                child[child.len() - 1].push(frag(seq![','], StyleRole::Default)),
            )
        } else {
            child
        };
        child2 + render_elems(es, i + 1, ind, step)
    }
}

/// The quoted-key fragment text for `key`: `"key": `.
pub open spec fn key_text(key: Seq<char>) -> Seq<char> {
    seq!['"'] + key + seq!['"', ':', ' ']
}

/// The lines of object members `ms[i..]`.
pub open spec fn render_members(ms: Seq<(Seq<char>, JsonSpec)>, i: int, ind: nat, step: nat) -> Seq<
    Seq<SpecFrag>,
>
    decreases ms, ms.len() - i + 1,
{
    if !(0 <= i < ms.len()) {
        Seq::empty()
    } else {
        let r = render_value(ms[i].1, (ind + step) as nat, step);
        let child = seq![
            seq![
                frag(spaces((ind + step) as nat), StyleRole::Default),
                frag(key_text(ms[i].0), StyleRole::Key),
            ] + r[0],
        ] + r.drop_first();
        let child2 = if i + 1 < ms.len() {
            child.update(
                child.len() - 1,
                child[child.len() - 1].push(frag(seq![','], StyleRole::Default)),
            )
        } else {
            child
        };
        child2 + render_members(ms, i + 1, ind, step)
    }
}

/// The number of structural boundaries of a value: one line for a scalar or
/// an empty container, and for a non-empty container one line per bracket
/// plus the lines of its children.
pub open spec fn line_count(v: JsonSpec) -> nat
    decreases v, 0nat,
{
    match v {
        JsonSpec::Array(es) => if es.len() == 0 {
            1
        } else {
            2 + count_elems(es, 0)
        },
        JsonSpec::Object(ms) => if ms.len() == 0 {
            1
        } else {
            2 + count_members(ms, 0)
        },
        _ => 1,
    }
}

pub open spec fn count_elems(es: Seq<JsonSpec>, i: int) -> nat
    decreases es, es.len() - i + 1,
{
    if !(0 <= i < es.len()) {
        0
    } else {
        line_count(es[i]) + count_elems(es, i + 1)
    }
}

pub open spec fn count_members(ms: Seq<(Seq<char>, JsonSpec)>, i: int) -> nat
    decreases ms, ms.len() - i + 1,
{
    if !(0 <= i < ms.len()) {
        0
    } else {
        line_count(ms[i].1) + count_members(ms, i + 1)
    }
}

/// The renderer produces exactly [`line_count`] lines: the document's visual
/// height equals its number of structural boundaries.
pub proof fn lemma_render_line_count(v: JsonSpec, ind: nat, step: nat)
    ensures
        render_value(v, ind, step).len() == line_count(v),
        render_value(v, ind, step).len() >= 1,
    decreases v, 0nat,
{
    match v {
        JsonSpec::Array(es) => {
            if es.len() > 0 {
                lemma_render_elems_count(es, 0, ind, step);
            }
        },
        JsonSpec::Object(ms) => {
            if ms.len() > 0 {
                lemma_render_members_count(ms, 0, ind, step);
            }
        },
        _ => {},
    }
}

proof fn lemma_render_elems_count(es: Seq<JsonSpec>, i: int, ind: nat, step: nat)
    requires
        0 <= i <= es.len(),
    ensures
        render_elems(es, i, ind, step).len() == count_elems(es, i),
    decreases es, es.len() - i + 1,
{
    if i < es.len() {
        lemma_render_line_count(es[i], (ind + step) as nat, step);
        lemma_render_elems_count(es, i + 1, ind, step);
    }
}

proof fn lemma_render_members_count(ms: Seq<(Seq<char>, JsonSpec)>, i: int, ind: nat, step: nat)
    requires
        0 <= i <= ms.len(),
    ensures
        render_members(ms, i, ind, step).len() == count_members(ms, i),
    decreases ms, ms.len() - i + 1,
{
    if i < ms.len() {
        lemma_render_line_count(ms[i].1, (ind + step) as nat, step);
        lemma_render_members_count(ms, i + 1, ind, step);
    }
}

/// Rendering is deterministic: any two renderings of the same value with the
/// same indent step are identical, fragment for fragment.
pub proof fn lemma_render_deterministic(
    v: JsonSpec,
    step: nat,
    d1: Seq<Seq<SpecFrag>>,
    d2: Seq<Seq<SpecFrag>>,
)
    requires
        d1 == render_value(v, 0, step),
        d2 == render_value(v, 0, step),
    ensures
        d1 == d2,
{
}

// ---------------------------------------------------------------------------
// The executable renderer
// ---------------------------------------------------------------------------
/// The document `doc` extended with the relative rendering `r`: `r`'s first
/// line joins `doc`'s last line, the rest become new lines.
pub open spec fn append_render(doc: Seq<Seq<SpecFrag>>, r: Seq<Seq<SpecFrag>>) -> Seq<
    Seq<SpecFrag>,
> {
    doc.update(doc.len() - 1, doc[doc.len() - 1] + r[0]) + r.drop_first()
}

/// Append one fragment to the last line.
fn push_frag(lines: &mut Vec<StyledLine>, f: Fragment)
    requires
        old(lines)@.len() >= 1,
    ensures
        doc_view(final(lines)@) == doc_view(old(lines)@).update(
            old(lines)@.len() - 1,
            doc_view(old(lines)@)[old(lines)@.len() - 1].push(f@),
        ),
        final(lines)@.len() == old(lines)@.len(),
{
    let ghost f_spec = f@;
    let mut last = lines.pop().unwrap();
    last.frags.push(f);
    proof {
        assert(last@ =~= old(lines)@[old(lines)@.len() - 1]@.push(f_spec));
    }
    lines.push(last);
    proof {
        assert(doc_view(lines@) =~= doc_view(old(lines)@).update(
            old(lines)@.len() - 1,
            doc_view(old(lines)@)[old(lines)@.len() - 1].push(f_spec),
        ));
    }
}

/// Start a new line holding just `f`.
fn new_line(lines: &mut Vec<StyledLine>, f: Fragment)
    ensures
        doc_view(final(lines)@) == doc_view(old(lines)@).push(seq![f@]),
        final(lines)@.len() == old(lines)@.len() + 1,
{
    let ghost f_spec = f@;
    let mut fv: Vec<Fragment> = Vec::new();
    fv.push(f);
    let line = StyledLine { frags: fv };
    proof {
        assert(line@ =~= seq![f_spec]);
    }
    lines.push(line);
    proof {
        assert(doc_view(lines@) =~= doc_view(old(lines)@).push(seq![f_spec]));
    }
}

/// `n` spaces as a character vector.
fn spaces_vec(n: usize) -> (r: Vec<char>)
    ensures
        r@ == spaces(n as nat),
{
    let mut r: Vec<char> = Vec::new();
    let mut i: usize = 0;
    while i < n
        invariant
            i <= n,
            r@ == spaces(i as nat),
        decreases n - i,
    {
        r.push(' ');
        proof {
            assert(spaces((i + 1) as nat) =~= spaces(i as nat).push(' '));
        }
        i = i + 1;
    }
    proof {
        assert(r@ =~= spaces(n as nat));
    }
    r
}

/// Append the styled rendering of `v` to `lines`: its first fragments onto
/// the current last line, every further line as a new line.
#[verifier::loop_isolation(false)]
#[verifier::rlimit(100)]
fn render_into(v: &JsonValue, ind: usize, step: usize, lines: &mut Vec<StyledLine>)
    requires
        old(lines)@.len() >= 1,
        ind + depth(v.deep()) * step <= usize::MAX,
    ensures
        doc_view(final(lines)@) == append_render(
            doc_view(old(lines)@),
            render_value(v.deep(), ind as nat, step as nat),
        ),
        final(lines)@.len() >= 1,
    decreases v,
{
    let ghost doc0 = doc_view(old(lines)@);
    let ghost r_all = render_value(v.deep(), ind as nat, step as nat);
    match v {
        JsonValue::Null => {
            let mut t: Vec<char> = Vec::new();
            t.push('n');
            t.push('u');
            t.push('l');
            t.push('l');
            proof {
                assert(t@ =~= seq!['n', 'u', 'l', 'l']);
            }
            push_frag(lines, Fragment { text: t, role: StyleRole::Null });
            proof {
                assert(doc_view(lines@) =~~= append_render(doc0, r_all));
            }
        },
        JsonValue::Bool(b) => {
            let mut t: Vec<char> = Vec::new();
            if *b {
                t.push('t');
                t.push('r');
                t.push('u');
                t.push('e');
                proof {
                    assert(t@ =~= seq!['t', 'r', 'u', 'e']);
                }
            } else {
                t.push('f');
                t.push('a');
                t.push('l');
                t.push('s');
                t.push('e');
                proof {
                    assert(t@ =~= seq!['f', 'a', 'l', 's', 'e']);
                }
            }
            push_frag(lines, Fragment { text: t, role: StyleRole::Bool });
            proof {
                assert(doc_view(lines@) =~~= append_render(doc0, r_all));
            }
        },
        JsonValue::Num(l) => {
            let mut t: Vec<char> = Vec::new();
            append_chars(&mut t, l);
            proof {
                assert(t@ =~= l@);
            }
            push_frag(lines, Fragment { text: t, role: StyleRole::Num });
            proof {
                assert(doc_view(lines@) =~~= append_render(doc0, r_all));
            }
        },
        JsonValue::Str(sv) => {
            let mut t: Vec<char> = Vec::new();
            t.push('"');
            append_chars(&mut t, sv);
            t.push('"');
            proof {
                assert(t@ =~= seq!['"'] + sv@ + seq!['"']);
            }
            push_frag(lines, Fragment { text: t, role: StyleRole::Str });
            proof {
                assert(doc_view(lines@) =~~= append_render(doc0, r_all));
            }
        },
        JsonValue::Array(elems) => {
            let ghost es = deep_elems(elems@, 0);
            proof {
                lemma_deep_elems(elems@, 0);
            }
            let mut br: Vec<char> = Vec::new();
            br.push('[');
            proof {
                assert(br@ =~= seq!['[']);
            }
            push_frag(lines, Fragment { text: br, role: StyleRole::Default });
            if elems.len() == 0 {
                let mut cl: Vec<char> = Vec::new();
                cl.push(']');
                proof {
                    assert(cl@ =~= seq![']']);
                }
                push_frag(lines, Fragment { text: cl, role: StyleRole::Default });
                proof {
                    assert(es =~= Seq::<JsonSpec>::empty());
                    assert(doc_view(lines@) =~~= append_render(doc0, r_all));
                }
            } else {
                proof {
                    assert(depth(v.deep()) == 1 + depth_elems(es, 0));
                    assert((1 + depth_elems(es, 0)) * step == step
                        + depth_elems(es, 0) * step) by (nonlinear_arith);
                }
                let ind2 = ind + step;
                let ghost closeline = seq![
                    frag(spaces(ind as nat), StyleRole::Default),
                    frag(seq![']'], StyleRole::Default),
                ];
                proof {
                    assert(doc_view(lines@) + render_elems(es, 0, ind as nat, step as nat) + seq![
                        closeline,
                    ] =~~= append_render(doc0, r_all));
                }
                let mut idx: usize = 0;
                while idx < elems.len()
                    invariant
                        idx <= elems@.len(),
                        lines@.len() >= 1,
                        doc_view(lines@) + render_elems(es, idx as int, ind as nat, step as nat)
                            + seq![closeline] == append_render(doc0, r_all),
                    decreases elems@.len() - idx,
                {
                    let ghost dock = doc_view(lines@);
                    new_line(
                        lines,
                        Fragment { text: spaces_vec(ind2), role: StyleRole::Default },
                    );
                    proof {
                        lemma_depth_elems_bound(es, 0, idx as int);
                        assert(depth(es[idx as int]) * step <= depth_elems(es, 0)
                            * step) by (nonlinear_arith)
                            requires
                                depth(es[idx as int]) <= depth_elems(es, 0),
                        ;
                        assert(es[idx as int] == elems@[idx as int].deep());
                        assert(decreases_to!(*v => *elems));
                        assert(decreases_to!(*elems => elems@[idx as int]));
                    }
                    render_into(&elems[idx], ind2, step, lines);
                    let ghost r = render_value(es[idx as int], ind2 as nat, step as nat);
                    let ghost child = seq![
                        seq![frag(spaces(ind2 as nat), StyleRole::Default)] + r[0],
                    ] + r.drop_first();
                    proof {
                        lemma_render_line_count(es[idx as int], ind2 as nat, step as nat);
                        assert(doc_view(lines@) =~~= dock + child);
                    }
                    if idx + 1 < elems.len() {
                        let mut cm: Vec<char> = Vec::new();
                        cm.push(',');
                        proof {
                            assert(cm@ =~= seq![',']);
                        }
                        push_frag(lines, Fragment { text: cm, role: StyleRole::Default });
                        proof {
                            assert(doc_view(lines@) =~~= dock + child.update(
                                child.len() - 1,
                                child[child.len() - 1].push(frag(seq![','], StyleRole::Default)),
                            ));
                        }
                    }
                    proof {
                        assert(doc_view(lines@) + render_elems(
                            es,
                            idx + 1,
                            ind as nat,
                            step as nat,
                        ) + seq![closeline] =~~= dock + render_elems(
                            es,
                            idx as int,
                            ind as nat,
                            step as nat,
                        ) + seq![closeline]);
                    }
                    idx = idx + 1;
                }
                new_line(
                    lines,
                    Fragment { text: spaces_vec(ind), role: StyleRole::Default },
                );
                let mut cl: Vec<char> = Vec::new();
                cl.push(']');
                proof {
                    assert(cl@ =~= seq![']']);
                }
                push_frag(lines, Fragment { text: cl, role: StyleRole::Default });
                proof {
                    assert(render_elems(es, elems@.len() as int, ind as nat, step as nat)
                        =~= Seq::<Seq<SpecFrag>>::empty());
                    assert(doc_view(lines@) =~~= append_render(doc0, r_all));
                }
            }
        },
        JsonValue::Object(members) => {
            let ghost ms = deep_members(members@, 0);
            proof {
                lemma_deep_members(members@, 0);
            }
            let mut br: Vec<char> = Vec::new();
            br.push('{');
            proof {
                assert(br@ =~= seq!['{']);
            }
            push_frag(lines, Fragment { text: br, role: StyleRole::Default });
            if members.len() == 0 {
                let mut cl: Vec<char> = Vec::new();
                cl.push('}');
                proof {
                    assert(cl@ =~= seq!['}']);
                }
                push_frag(lines, Fragment { text: cl, role: StyleRole::Default });
                proof {
                    assert(ms =~= Seq::<(Seq<char>, JsonSpec)>::empty());
                    assert(doc_view(lines@) =~~= append_render(doc0, r_all));
                }
            } else {
                proof {
                    assert(depth(v.deep()) == 1 + depth_members(ms, 0));
                    assert((1 + depth_members(ms, 0)) * step == step
                        + depth_members(ms, 0) * step) by (nonlinear_arith);
                }
                let ind2 = ind + step;
                let ghost closeline = seq![
                    frag(spaces(ind as nat), StyleRole::Default),
                    frag(seq!['}'], StyleRole::Default),
                ];
                proof {
                    assert(doc_view(lines@) + render_members(ms, 0, ind as nat, step as nat)
                        + seq![closeline] =~~= append_render(doc0, r_all));
                }
                let mut idx: usize = 0;
                while idx < members.len()
                    invariant
                        idx <= members@.len(),
                        lines@.len() >= 1,
                        doc_view(lines@) + render_members(ms, idx as int, ind as nat, step as nat)
                            + seq![closeline] == append_render(doc0, r_all),
                    decreases members@.len() - idx,
                {
                    let ghost dock = doc_view(lines@);
                    new_line(
                        lines,
                        Fragment { text: spaces_vec(ind2), role: StyleRole::Default },
                    );
                    let m = &members[idx];
                    let mut kt: Vec<char> = Vec::new();
                    kt.push('"');
                    append_chars(&mut kt, &m.0);
                    kt.push('"');
                    kt.push(':');
                    kt.push(' ');
                    proof {
                        assert(kt@ =~= key_text(members@[idx as int].0@));
                    }
                    push_frag(lines, Fragment { text: kt, role: StyleRole::Key });
                    proof {
                        lemma_depth_members_bound(ms, 0, idx as int);
                        assert(depth(ms[idx as int].1) * step <= depth_members(ms, 0)
                            * step) by (nonlinear_arith)
                            requires
                                depth(ms[idx as int].1) <= depth_members(ms, 0),
                        ;
                        assert(ms[idx as int] == (members@[idx as int].0@, members@[
                            idx as int].1.deep()));
                        assert(decreases_to!(*v => *members));
                        assert(decreases_to!(*members => members@[idx as int]));
                        assert(decreases_to!(members@[idx as int] => members@[idx as int].1));
                    }
                    render_into(&m.1, ind2, step, lines);
                    let ghost r = render_value(ms[idx as int].1, ind2 as nat, step as nat);
                    let ghost child = seq![
                        seq![
                            frag(spaces(ind2 as nat), StyleRole::Default),
                            frag(key_text(ms[idx as int].0), StyleRole::Key),
                        ] + r[0],
                    ] + r.drop_first();
                    proof {
                        lemma_render_line_count(ms[idx as int].1, ind2 as nat, step as nat);
                        assert(doc_view(lines@) =~~= dock + child);
                    }
                    if idx + 1 < members.len() {
                        let mut cm: Vec<char> = Vec::new();
                        cm.push(',');
                        proof {
                            assert(cm@ =~= seq![',']);
                        }
                        push_frag(lines, Fragment { text: cm, role: StyleRole::Default });
                        proof {
                            assert(doc_view(lines@) =~~= dock + child.update(
                                child.len() - 1,
                                child[child.len() - 1].push(frag(seq![','], StyleRole::Default)),
                            ));
                        }
                    }
                    proof {
                        assert(doc_view(lines@) + render_members(
                            ms,
                            idx + 1,
                            ind as nat,
                            step as nat,
                        ) + seq![closeline] =~~= dock + render_members(
                            ms,
                            idx as int,
                            ind as nat,
                            step as nat,
                        ) + seq![closeline]);
                    }
                    idx = idx + 1;
                }
                new_line(
                    lines,
                    Fragment { text: spaces_vec(ind), role: StyleRole::Default },
                );
                let mut cl: Vec<char> = Vec::new();
                cl.push('}');
                proof {
                    assert(cl@ =~= seq!['}']);
                }
                push_frag(lines, Fragment { text: cl, role: StyleRole::Default });
                proof {
                    assert(render_members(ms, members@.len() as int, ind as nat, step as nat)
                        =~= Seq::<Seq<SpecFrag>>::empty());
                    assert(doc_view(lines@) =~~= append_render(doc0, r_all));
                }
            }
        },
    }
}

/// Render `v` as a styled document with the given indent step. Deterministic:
/// the result is exactly [`render_value`] of the value, and its line count is
/// exactly [`line_count`].
pub fn render_document(v: &JsonValue, step: usize) -> (r: Vec<StyledLine>)
    requires
        depth(v.deep()) * step <= usize::MAX,
    ensures
        doc_view(r@) == render_value(v.deep(), 0, step as nat),
        r@.len() == line_count(v.deep()),
        r@.len() >= 1,
{
    let mut lines: Vec<StyledLine> = Vec::new();
    let empty_frags: Vec<Fragment> = Vec::new();
    let first = StyledLine { frags: empty_frags };
    proof {
        assert(first@ =~= Seq::<SpecFrag>::empty());
    }
    lines.push(first);
    proof {
        assert(doc_view(lines@) =~= seq![Seq::<SpecFrag>::empty()]);
    }
    render_into(v, 0, step, &mut lines);
    proof {
        lemma_render_line_count(v.deep(), 0, step as nat);
        let r_all = render_value(v.deep(), 0, step as nat);
        assert(doc_view(lines@) =~~= r_all) by {
            assert(doc_view(lines@) == append_render(seq![Seq::<SpecFrag>::empty()], r_all));
            assert(Seq::<SpecFrag>::empty() + r_all[0] =~= r_all[0]);
            assert(seq![Seq::<SpecFrag>::empty()].update(0, Seq::<SpecFrag>::empty() + r_all[0])
                =~= seq![r_all[0]]);
            assert(seq![r_all[0]] + r_all.drop_first() =~= r_all);
        }
    }
    lines
}

} // verus!
