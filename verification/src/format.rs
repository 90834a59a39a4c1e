//! The recursive formatter.
//!
//! Each structural scope (one object or array body, or the document root) is
//! rendered twice while its events stream past: once indented, one child per
//! line, and once compact on a single line. When the scope closes, the
//! compact rendering is kept if its trimmed length stays under the threshold
//! of 80 characters; otherwise the indented rendering is kept. The choice is
//! made independently per scope, so a large document still keeps its small
//! sub-objects inline.
//!
//! The specification below models the traversal as a machine that folds over
//! the event sequence: a stack of open scope buffers, a current scope, and a
//! finished document once the root scope closes. The executable formatter
//! maintains exactly that state and is proved to follow the machine step by
//! step.

use vstd::prelude::*;
use crate::escape::{escape_str, escaped_s};
use crate::events::{
    has_exponent_form, read_events, events_of_text, text_has_exponent_form, Ev, Kind,
    PARSER_BYTE_LIMIT,
};
use crate::text::{
    append_chars, chars_of, string_from_chars, trim_end_s, trim_end_vec, trim_s, trim_start_s,
    trim_start_vec, trimmed_len,
};

verus! {

use vstd::string::StringSliceAdditionalSpecFns;

/// The pair of candidate renderings of one open scope, and whether its next
/// child would be the first.
#[verifier::ext_equal]
pub struct ScopeBufs {
    pub ind: Seq<char>,
    pub cmp: Seq<char>,
    pub first: bool,
}

/// The formatter's whole state: the buffers of every enclosing open scope,
/// innermost last, and the current scope — or the finished document, once
/// the root scope has closed.
#[verifier::ext_equal]
pub enum FmtState {
    Run { stack: Seq<ScopeBufs>, cur: ScopeBufs },
    Done { out: Seq<char> },
}

/// `n` spaces.
pub open spec fn spaces(n: nat) -> Seq<char> {
    Seq::new(n, |i: int| ' ')
}

/// A fresh indentation prefix: trailing whitespace trimmed, a newline, and
/// two spaces per indentation level.
pub open spec fn indented_s(s: Seq<char>, lvl: nat) -> Seq<char> {
    trim_end_s(s) + seq!['\n'] + spaces(2 * lvl)
}

/// Whether the event kind closes a scope.
pub open spec fn kind_is_end(k: Kind) -> bool {
    k is ObjEnd || k is ArrEnd
}

/// Whether the event kind opens a scope.
pub open spec fn kind_is_open(k: Kind) -> bool {
    k is ObjStart || k is ArrStart
}

/// The closing token of an end event.
pub open spec fn closer_s(k: Kind) -> Seq<char> {
    if k is ObjEnd {
        seq!['}']
    } else {
        seq![']']
    }
}

/// The opening token of a start event.
pub open spec fn opener_s(k: Kind) -> Seq<char> {
    if k is ObjStart {
        seq!['{']
    } else {
        seq!['[']
    }
}

/// The text a scalar event contributes: the escaped string literal, the
/// number's decimal text, `true`/`false`, `null`, or nothing.
pub open spec fn content_s(k: Kind) -> Seq<char> {
    match k {
        Kind::Str(s) => escaped_s(s@),
        Kind::Num(t) => t@,
        Kind::Bool(b) => if b {
            seq!['t', 'r', 'u', 'e']
        } else {
            seq!['f', 'a', 'l', 's', 'e']
        },
        Kind::Null => seq!['n', 'u', 'l', 'l'],
        _ => Seq::empty(),
    }
}

/// The `"key": ` prefix a keyed event contributes, empty without a key.
pub open spec fn key_prefix_s(key: Option<String>) -> Seq<char> {
    match key {
        Some(k) => escaped_s(k@) + seq![':', ' '],
        None => Seq::empty(),
    }
}

/// One step of the formatter on one event.
///
/// A closing event decrements the indentation (floored at zero), re-indents
/// the indented buffer, appends the closing token to both buffers, and
/// resolves the scope: the compact rendering is kept when its trimmed length
/// is under 80, the indented one otherwise; the kept rendering is appended
/// to both buffers of the parent scope, or becomes the finished document at
/// the root. Any other event first contributes a `", "` separator (unless it
/// is the first child), a fresh indentation prefix in the indented buffer,
/// and its `"key": ` prefix if it has one; a start event then appends its
/// opening token and opens a fresh scope, and a scalar appends its content.
/// Once the document is finished, further events change nothing.
pub open spec fn step(st: FmtState, e: Ev) -> FmtState {
    match st {
        FmtState::Done { out } => FmtState::Done { out },
        FmtState::Run { stack, cur } => {
            if kind_is_end(e.kind) {
                let lvl = if stack.len() > 0 {
                    (stack.len() - 1) as nat
                } else {
                    0nat
                };
                let ind2 = indented_s(cur.ind, lvl) + closer_s(e.kind);
                let cmp2 = cur.cmp + closer_s(e.kind);
                let chosen = if trim_s(cmp2).len() < 80 {
                    cmp2
                } else {
                    ind2
                };
                if stack.len() == 0 {
                    FmtState::Done { out: chosen }
                } else {
                    FmtState::Run {
                        stack: stack.drop_last(),
                        cur: ScopeBufs {
                            ind: stack.last().ind + chosen,
                            cmp: stack.last().cmp + chosen,
                            first: stack.last().first,
                        },
                    }
                }
            } else {
                let sep = if cur.first {
                    Seq::<char>::empty()
                } else {
                    seq![',', ' ']
                };
                let kp = key_prefix_s(e.key);
                let ind1 = indented_s(cur.ind + sep, stack.len()) + kp;
                let cmp1 = cur.cmp + sep + kp;
                if kind_is_open(e.kind) {
                    FmtState::Run {
                        stack: stack.push(
                            ScopeBufs {
                                ind: ind1 + opener_s(e.kind),
                                cmp: cmp1 + opener_s(e.kind),
                                first: false,
                            },
                        ),
                        cur: ScopeBufs { ind: Seq::empty(), cmp: Seq::empty(), first: true },
                    }
                } else {
                    FmtState::Run {
                        stack,
                        cur: ScopeBufs {
                            ind: ind1 + content_s(e.kind),
                            cmp: cmp1 + content_s(e.kind),
                            first: false,
                        },
                    }
                }
            }
        },
    }
}

/// The machine folded over a sequence of events.
pub open spec fn run_from(st: FmtState, events: Seq<Ev>) -> FmtState
    decreases events.len(),
{
    if events.len() == 0 {
        st
    } else {
        run_from(step(st, events[0]), events.drop_first())
    }
}

/// The machine's starting state: no open parent, an empty root scope.
pub open spec fn init_state() -> FmtState {
    FmtState::Run {
        stack: Seq::empty(),
        cur: ScopeBufs { ind: Seq::empty(), cmp: Seq::empty(), first: true },
    }
}

/// The rendering a scope keeps when the event stream ends on it: the compact
/// form when its trimmed length is under 80, the indented form otherwise, in
/// both cases with leading whitespace stripped.
pub open spec fn root_text(f: ScopeBufs) -> Seq<char> {
    if trim_s(f.cmp).len() < 80 {
        trim_start_s(f.cmp)
    } else {
        trim_start_s(f.ind)
    }
}

/// Scopes still open when the events end are resolved innermost first, each
/// kept rendering appended to both buffers of its parent, down to the root.
pub open spec fn collapse(stack: Seq<ScopeBufs>, cur: ScopeBufs) -> Seq<char>
    decreases stack.len(),
{
    let chosen = root_text(cur);
    if stack.len() == 0 {
        chosen
    } else {
        collapse(
            stack.drop_last(),
            ScopeBufs {
                ind: stack.last().ind + chosen,
                cmp: stack.last().cmp + chosen,
                first: stack.last().first,
            },
        )
    }
}

/// The finished document of a final machine state.
pub open spec fn finish(st: FmtState) -> Seq<char> {
    match st {
        FmtState::Done { out } => out,
        FmtState::Run { stack, cur } => collapse(stack, cur),
    }
}

/// The document rendered from an event sequence.
pub open spec fn render_doc(events: Seq<Ev>) -> Seq<char> {
    finish(run_from(init_state(), events))
}

/// Folding one more event is one more step.
pub proof fn lemma_run_snoc(st: FmtState, events: Seq<Ev>, e: Ev)
    ensures
        run_from(st, events.push(e)) == step(run_from(st, events), e),
    decreases events.len(),
{
    if events.len() == 0 {
        assert(events.push(e)[0] == e);
        assert(events.push(e).drop_first() =~= events);
        assert(run_from(st, events.push(e)) == run_from(step(st, e), events));
    } else {
        assert(events.push(e)[0] == events[0]);
        assert(events.push(e).drop_first() =~= events.drop_first().push(e));
        lemma_run_snoc(step(st, events[0]), events.drop_first(), e);
        assert(run_from(st, events.push(e)) == run_from(
            step(st, events[0]),
            events.drop_first().push(e),
        ));
    }
}

/// The threshold law at a scope close: with a parent scope open, the scope
/// resolves to its compact rendering (closing token included) if and only if
/// that rendering's trimmed length is under 80 characters — so a trimmed
/// compact rendering of 79 characters stays inline — and to its indented
/// rendering at 80 or more. The kept rendering is computed from the closing
/// scope's own buffers and the closing token alone, so each scope's choice
/// is independent of its parent and siblings: a large array still keeps its
/// small elements inline.
pub proof fn lemma_threshold_close(stack: Seq<ScopeBufs>, cur: ScopeBufs, e: Ev)
    requires
        kind_is_end(e.kind),
        stack.len() > 0,
    ensures
        ({
            let cmp2 = cur.cmp + closer_s(e.kind);
            let ind2 = indented_s(cur.ind, (stack.len() - 1) as nat) + closer_s(e.kind);
            let kept = if trim_s(cmp2).len() < 80 {
                cmp2
            } else {
                ind2
            };
            step(FmtState::Run { stack, cur }, e) == (FmtState::Run {
                stack: stack.drop_last(),
                cur: ScopeBufs {
                    ind: stack.last().ind + kept,
                    cmp: stack.last().cmp + kept,
                    first: stack.last().first,
                },
            })
        }),
{
}

/// The threshold law at the document root: the finished document is the
/// compact rendering, leading whitespace stripped, if and only if its
/// trimmed length is under 80 characters, and the indented rendering
/// otherwise.
pub proof fn lemma_threshold_root(cur: ScopeBufs)
    ensures
        trim_s(cur.cmp).len() < 80 ==> root_text(cur) == trim_start_s(cur.cmp),
        trim_s(cur.cmp).len() >= 80 ==> root_text(cur) == trim_start_s(cur.ind),
{
}

/// The run-time buffers of one open scope.
pub struct Frame {
    pub ind: Vec<char>,
    pub cmp: Vec<char>,
    pub first: bool,
}

/// The abstraction of one run-time scope.
pub open spec fn abs_frame(f: Frame) -> ScopeBufs {
    ScopeBufs { ind: f.ind@, cmp: f.cmp@, first: f.first }
}

/// The abstraction of the run-time scope stack.
pub open spec fn abs_frames(s: Seq<Frame>) -> Seq<ScopeBufs> {
    s.map_values(|f: Frame| abs_frame(f))
}

/// The abstraction of the formatter's whole run-time state.
pub open spec fn abs_state(stack: Seq<Frame>, cur: Frame, done: Option<Vec<char>>) -> FmtState {
    match done {
        Some(o) => FmtState::Done { out: o@ },
        None => FmtState::Run { stack: abs_frames(stack), cur: abs_frame(cur) },
    }
}

/// Rebuilds the indentation prefix of `buf`: trims its trailing whitespace,
/// then appends a newline and two spaces per indentation level.
pub fn build_indent(buf: &mut Vec<char>, indent_lvl: usize)
    ensures
        final(buf)@ == indented_s(old(buf)@, indent_lvl as nat),
{
    trim_end_vec(buf);
    buf.push('\n');
    proof {
        assert(buf@ =~= trim_end_s(old(buf)@) + seq!['\n'] + spaces(0));
    }
    let mut j: usize = 0;
    while j < indent_lvl
        invariant
            j <= indent_lvl,
            buf@ == trim_end_s(old(buf)@) + seq!['\n'] + spaces(2 * j as nat),
        decreases indent_lvl - j,
    {
        buf.push(' ');
        buf.push(' ');
        proof {
            assert(buf@ =~= trim_end_s(old(buf)@) + seq!['\n'] + spaces(2 * (j + 1) as nat));
        }
        j = j + 1;
    }
}

/// Whether the event kind closes a scope, decided at run time.
fn is_end_kind(k: &Kind) -> (b: bool)
    ensures
        b == kind_is_end(*k),
{
    matches!(k, Kind::ObjEnd | Kind::ArrEnd)
}

/// Formats a whole event sequence into the rendered document.
#[verifier::rlimit(100)]
pub fn json_format(events: &Vec<Ev>) -> (out: Vec<char>)
    ensures
        out@ == render_doc(events@),
{
    let mut stack: Vec<Frame> = Vec::new();
    let mut cur = Frame { ind: Vec::new(), cmp: Vec::new(), first: true };
    let mut done: Option<Vec<char>> = None;
    let mut i: usize = 0;
    proof {
        assert(events@.take(0) =~= Seq::<Ev>::empty());
        assert(abs_frames(stack@) =~= Seq::<ScopeBufs>::empty());
        assert(abs_state(stack@, cur, done) =~~= init_state());
    }
    while i < events.len()
        invariant
            i <= events.len(),
            abs_state(stack@, cur, done) == run_from(init_state(), events@.take(i as int)),
        decreases events.len() - i,
    {
        let ghost pre = abs_state(stack@, cur, done);
        let ghost pstack = abs_frames(stack@);
        let ghost pcur = abs_frame(cur);
        let ghost ev = events@[i as int];
        let e = &events[i];
        proof {
            assert(*e == ev);
        }
        if done.is_some() {
            // the root scope has already closed; later events change nothing
        } else if is_end_kind(&e.kind) {
            let ghost lvl_s: nat = if pstack.len() > 0 {
                (pstack.len() - 1) as nat
            } else {
                0nat
            };
            let lvl: usize = if stack.len() > 0 {
                stack.len() - 1
            } else {
                0
            };
            let mut c = cur;
            build_indent(&mut c.ind, lvl);
            let cl: char = if matches!(&e.kind, Kind::ObjEnd) {
                '}'
            } else {
                ']'
            };
            c.ind.push(cl);
            c.cmp.push(cl);
            let ghost ind2 = indented_s(pcur.ind, lvl_s) + closer_s(ev.kind);
            let ghost cmp2 = pcur.cmp + closer_s(ev.kind);
            proof {
                assert(c.ind@ =~= ind2);
                assert(c.cmp@ =~= cmp2);
            }
            let tl = trimmed_len(&c.cmp);
            let chosen = if tl < 80 {
                c.cmp
            } else {
                c.ind
            };
            proof {
                assert(chosen@ == (if trim_s(cmp2).len() < 80 {
                    cmp2
                } else {
                    ind2
                }));
            }
            match stack.pop() {
                None => {
                    done = Some(chosen);
                    cur = Frame { ind: Vec::new(), cmp: Vec::new(), first: true };
                },
                Some(mut par) => {
                    proof {
                        assert(abs_frame(par) == pstack.last());
                        assert(abs_frames(stack@) =~= pstack.drop_last());
                    }
                    append_chars(&mut par.ind, &chosen);
                    append_chars(&mut par.cmp, &chosen);
                    cur = par;
                },
            }
        } else {
            if !cur.first {
                cur.ind.push(',');
                cur.ind.push(' ');
                cur.cmp.push(',');
                cur.cmp.push(' ');
            }
            cur.first = false;
            let ghost sep: Seq<char> = if pcur.first {
                Seq::empty()
            } else {
                seq![',', ' ']
            };
            proof {
                assert(cur.ind@ =~= pcur.ind + sep);
                assert(cur.cmp@ =~= pcur.cmp + sep);
            }
            build_indent(&mut cur.ind, stack.len());
            match &e.key {
                Some(k) => {
                    escape_str(&mut cur.ind, k.as_str());
                    cur.ind.push(':');
                    cur.ind.push(' ');
                    escape_str(&mut cur.cmp, k.as_str());
                    cur.cmp.push(':');
                    cur.cmp.push(' ');
                },
                None => {},
            }
            let ghost ind1 = indented_s(pcur.ind + sep, pstack.len()) + key_prefix_s(ev.key);
            let ghost cmp1 = pcur.cmp + sep + key_prefix_s(ev.key);
            proof {
                assert(cur.ind@ =~= ind1);
                assert(cur.cmp@ =~= cmp1);
            }
            match &e.kind {
                Kind::ObjStart => {
                    cur.ind.push('{');
                    cur.cmp.push('{');
                    let ghost pushed = abs_frame(cur);
                    stack.push(cur);
                    cur = Frame { ind: Vec::new(), cmp: Vec::new(), first: true };
                    proof {
                        assert(abs_frames(stack@) =~= pstack.push(pushed));
                        assert(pushed =~~= ScopeBufs {
                            ind: ind1 + opener_s(ev.kind),
                            cmp: cmp1 + opener_s(ev.kind),
                            first: false,
                        });
                    }
                },
                Kind::ArrStart => {
                    cur.ind.push('[');
                    cur.cmp.push('[');
                    let ghost pushed = abs_frame(cur);
                    stack.push(cur);
                    cur = Frame { ind: Vec::new(), cmp: Vec::new(), first: true };
                    proof {
                        assert(abs_frames(stack@) =~= pstack.push(pushed));
                        assert(pushed =~~= ScopeBufs {
                            ind: ind1 + opener_s(ev.kind),
                            cmp: cmp1 + opener_s(ev.kind),
                            first: false,
                        });
                    }
                },
                Kind::Str(s) => {
                    escape_str(&mut cur.ind, s.as_str());
                    escape_str(&mut cur.cmp, s.as_str());
                },
                Kind::Num(t) => {
                    let tc = chars_of(t.as_str());
                    append_chars(&mut cur.ind, &tc);
                    append_chars(&mut cur.cmp, &tc);
                },
                Kind::Bool(b) => {
                    if *b {
                        cur.ind.push('t');
                        cur.ind.push('r');
                        cur.ind.push('u');
                        cur.ind.push('e');
                        cur.cmp.push('t');
                        cur.cmp.push('r');
                        cur.cmp.push('u');
                        cur.cmp.push('e');
                    } else {
                        cur.ind.push('f');
                        cur.ind.push('a');
                        cur.ind.push('l');
                        cur.ind.push('s');
                        cur.ind.push('e');
                        cur.cmp.push('f');
                        cur.cmp.push('a');
                        cur.cmp.push('l');
                        cur.cmp.push('s');
                        cur.cmp.push('e');
                    }
                },
                Kind::Null => {
                    cur.ind.push('n');
                    cur.ind.push('u');
                    cur.ind.push('l');
                    cur.ind.push('l');
                    cur.cmp.push('n');
                    cur.cmp.push('u');
                    cur.cmp.push('l');
                    cur.cmp.push('l');
                },
                _ => {},
            }
            proof {
                if !kind_is_open(ev.kind) {
                    assert(cur.ind@ =~= ind1 + content_s(ev.kind));
                    assert(cur.cmp@ =~= cmp1 + content_s(ev.kind));
                }
            }
        }
        proof {
            assert(abs_state(stack@, cur, done) =~~= step(pre, ev));
            assert(events@.take(i + 1) =~= events@.take(i as int).push(ev));
            lemma_run_snoc(init_state(), events@.take(i as int), ev);
        }
        i = i + 1;
    }
    proof {
        assert(events@.take(events@.len() as int) =~= events@);
    }
    let out: Vec<char> = match done {
        Some(o) => o,
        None => {
            while stack.len() > 0
                invariant
                    collapse(abs_frames(stack@), abs_frame(cur)) == render_doc(events@),
                decreases stack@.len(),
            {
                let ghost pstack = abs_frames(stack@);
                let ghost pcur = abs_frame(cur);
                let tl = trimmed_len(&cur.cmp);
                let sel = if tl < 80 {
                    trim_start_vec(&cur.cmp)
                } else {
                    trim_start_vec(&cur.ind)
                };
                proof {
                    assert(sel@ == root_text(pcur));
                }
                let mut par = stack.pop().unwrap();
                proof {
                    assert(abs_frame(par) == pstack.last());
                    assert(abs_frames(stack@) =~= pstack.drop_last());
                }
                append_chars(&mut par.ind, &sel);
                append_chars(&mut par.cmp, &sel);
                cur = par;
                proof {
                    assert(abs_frame(cur) =~~= ScopeBufs {
                        ind: pstack.last().ind + root_text(pcur),
                        cmp: pstack.last().cmp + root_text(pcur),
                        first: pstack.last().first,
                    });
                    assert(collapse(abs_frames(stack@), abs_frame(cur)) == collapse(
                        pstack,
                        pcur,
                    ));
                }
            }
            let tl = trimmed_len(&cur.cmp);
            let sel = if tl < 80 {
                trim_start_vec(&cur.cmp)
            } else {
                trim_start_vec(&cur.ind)
            };
            proof {
                assert(sel@ == root_text(abs_frame(cur)));
            }
            sel
        },
    };
    out
}

/// Formats a whole JSON document, given as text, into its rendered form.
/// The bounds are the event parser's machine limits (see
/// [`PARSER_BYTE_LIMIT`] and [`has_exponent_form`]); [`format_document`]
/// checks them at run time.
pub fn format_text(text: &str) -> (out: String)
    requires
        text.spec_bytes().len() < PARSER_BYTE_LIMIT,
        !has_exponent_form(text@),
    ensures
        out@ == render_doc(events_of_text(text@)),
{
    let events = read_events(text);
    let buf = json_format(&events);
    string_from_chars(&buf)
}

/// Formats a whole JSON document, given as text, into its rendered form,
/// first checking the event parser's machine limits: a document under the
/// byte limit and free of the number-exponent shape is rendered, any other
/// is refused with `None`.
pub fn format_document(text: &str) -> (r: Option<String>)
    ensures
        (r is Some) == (text.spec_bytes().len() < PARSER_BYTE_LIMIT && !has_exponent_form(
            text@,
        )),
        r matches Some(out) ==> out@ == render_doc(events_of_text(text@)),
{
    if text.as_bytes().len() < PARSER_BYTE_LIMIT && !text_has_exponent_form(text) {
        Some(format_text(text))
    } else {
        None
    }
}

} // verus!
