//! Structural parse events and the event source that produces them.
//!
//! The formatter consumes a depth-first sequence of events: object and array
//! open and close, scalar values, and, for every event that sits directly
//! inside an object, the enclosing key. The events come from the streaming
//! JSON parser of the `rustc_serialize` crate, reached only through the
//! trusted items below; everything downstream of them is verified.

use vstd::prelude::*;
use rustc_serialize::json::{JsonEvent as J, Parser, StackElement};

verus! {

use vstd::string::StringSliceAdditionalSpecFns;

/// The parser's machine limit on document size, in bytes.
///
/// The parser keeps the keys enclosing the current event in an internal
/// buffer and records each key's position there as 16-bit byte offsets
/// (`Stack`'s `push_key` and `top` in `rustc_serialize::json`). The keys on
/// one nesting path are disjoint spans of the document and decode to at most
/// as many bytes as they occupy in it, so while the whole document is under
/// 65536 bytes every offset and length fits `u16` exactly and the stack
/// arithmetic cannot overflow, truncate a key, or panic. At 65536 bytes or
/// more, a document's key offsets can exceed `u16` and the parser may panic
/// or misreport keys, so such documents are excluded by precondition.
pub const PARSER_BYTE_LIMIT: usize = 65536;

/// Whether `c` is an ASCII decimal digit.
pub open spec fn is_digit(c: char) -> bool {
    0x30 <= c as u32 && c as u32 <= 0x39
}

/// Whether position `i` of `text` is an `e` or `E` immediately after a
/// digit — the only shape through which the parser can enter a number's
/// exponent part.
pub open spec fn is_exp_at(text: Seq<char>, i: int) -> bool {
    is_digit(text[i - 1]) && (text[i] == 'e' || text[i] == 'E')
}

/// Whether `text` anywhere holds a digit immediately followed by `e` or
/// `E`. A text without that shape can never reach the parser's
/// number-exponent path: the parser enters it only when `e`/`E` follows the
/// digits of a number. This is conservative — the shape is also refused
/// inside string values, where it would be harmless — but it is what a
/// plain scan can decide. The exponent path is excluded because it
/// accumulates the exponent's digits into a machine word unchecked (a long
/// exponent overflows it) and computes the value through a power function
/// whose precision varies across platforms.
pub open spec fn has_exponent_form(text: Seq<char>) -> bool {
    exists|i: int| 1 <= i < text.len() && is_exp_at(text, i)
}

/// Whether `text` holds a digit immediately followed by `e` or `E`,
/// decided at run time.
pub fn text_has_exponent_form(text: &str) -> (b: bool)
    ensures
        b == has_exponent_form(text@),
{
    let cs = crate::text::chars_of(text);
    let n = cs.len();
    let mut i: usize = 1;
    while i < n
        invariant
            1 <= i,
            n == cs.len(),
            cs@ == text@,
            forall|j: int| 1 <= j < i ==> !is_exp_at(text@, j),
        ensures
            forall|j: int| 1 <= j < n ==> !is_exp_at(text@, j),
        decreases n - i,
    {
        let c = cs[i];
        if c == 'e' || c == 'E' {
            let pu = cs[i - 1] as u32;
            if 0x30 <= pu && pu <= 0x39 {
                proof {
                    assert(is_exp_at(text@, i as int));
                }
                return true;
            }
        }
        proof {
            assert(!is_exp_at(text@, i as int));
        }
        i = i + 1;
    }
    false
}

/// What one parse event contributes to the rendering.
///
/// Numbers arrive already written in their natural decimal text form, since
/// the formatter copies that text through unchanged. `Other` stands for the
/// parser's error event, which renders no content of its own.
pub enum Kind {
    ObjStart,
    ObjEnd,
    ArrStart,
    ArrEnd,
    Str(String),
    Num(String),
    Bool(bool),
    Null,
    Other,
}

/// One structural parse event: its kind, and the enclosing object key the
/// parser's stack reports for it (`None` for array elements, for the document
/// root, and whenever the stack top is not a key).
pub struct Ev {
    pub key: Option<String>,
    pub kind: Kind,
}

/// The sequence of events that parsing `text` yields, each with its
/// enclosing key. The name is applied only within the bounds of
/// [`EventSource::from_text`], which keep the parser off its one
/// platform-dependent path (a number's exponent, computed through an
/// inexact power function); everywhere else the parser is a deterministic
/// function of the text, so the name is well defined. Nothing more is
/// assumed about it.
pub uninterp spec fn events_of_text(text: Seq<char>) -> Seq<Ev>;

/// The events an event source will still produce, in order.
pub uninterp spec fn remaining(src: EventSource) -> Seq<Ev>;

/// A live cursor over the parse events of one document.
#[verifier::external_body]
pub struct EventSource {
    parser: Parser<std::vec::IntoIter<char>>,
}

impl EventSource {
    /// Relies on `rustc_serialize::json::Parser::new`: a fresh parser over
    /// the characters of `text` yields exactly the event stream of `text`.
    /// The byte bound keeps the parser's 16-bit key offsets exact (see
    /// [`PARSER_BYTE_LIMIT`]), and the absence of the exponent shape (see
    /// [`has_exponent_form`]) keeps the parser off its number-exponent path,
    /// whose digit accumulation can overflow and whose power function is not
    /// exact across platforms. Within these bounds no later call into the
    /// parser can panic, and its event stream — digits accumulated checked,
    /// IEEE decimal arithmetic, shortest-round-trip number formatting — is a
    /// deterministic function of the text.
    #[verifier::external_body]
    pub fn from_text(text: &str) -> (src: EventSource)
        requires
            text.spec_bytes().len() < PARSER_BYTE_LIMIT,
            !has_exponent_form(text@),
        ensures
            remaining(src) == events_of_text(text@),
    {
        EventSource { parser: Parser::new(text.chars().collect::<Vec<char>>().into_iter()) }
    }

    /// Relies on `Parser::next` and `Parser::stack`: `next` produces the
    /// events of the document in order and returns `None` once they are
    /// exhausted (the parser finishes after at most one error event), and
    /// `stack().top()` names the key under which the event just produced
    /// sits, when it sits directly inside an object. An `EventSource` can
    /// only come from [`EventSource::from_text`], whose bounds keep the
    /// parser's 16-bit key offsets exact and its number-exponent path
    /// unreached, so these calls return normally.
    #[verifier::external_body]
    pub fn next_event(&mut self) -> (r: Option<Ev>)
        ensures
            remaining(*old(self)).len() == 0 ==> r is None && remaining(*final(self))
                == remaining(*old(self)),
            remaining(*old(self)).len() > 0 ==> r == Some(remaining(*old(self))[0])
                && remaining(*final(self)) == remaining(*old(self)).drop_first(),
    {
        let e = self.parser.next()?;
        let key = match self.parser.stack().top() {
            Some(StackElement::Key(k)) => Some(k.to_string()), _ => None };
        let kind = match e {
            J::ObjectStart => Kind::ObjStart, J::ObjectEnd => Kind::ObjEnd,
            J::ArrayStart => Kind::ArrStart, J::ArrayEnd => Kind::ArrEnd,
            J::BooleanValue(b) => Kind::Bool(b), J::NullValue => Kind::Null,
            J::StringValue(v) => Kind::Str(v),
            J::I64Value(v) => Kind::Num(format!("{}", v)),
            J::U64Value(v) => Kind::Num(format!("{}", v)),
            J::F64Value(v) => Kind::Num(format!("{}", v)),
            _ => Kind::Other,
        };
        Some(Ev { key, kind })
    }
}

/// Reads the whole event stream of `text` into a vector. The bounds are the
/// parser's machine limits (see [`PARSER_BYTE_LIMIT`] and
/// [`has_exponent_form`]).
pub fn read_events(text: &str) -> (events: Vec<Ev>)
    requires
        text.spec_bytes().len() < PARSER_BYTE_LIMIT,
        !has_exponent_form(text@),
    ensures
        events@ == events_of_text(text@),
{
    let mut src = EventSource::from_text(text);
    let mut events: Vec<Ev> = Vec::new();
    let mut fin = false;
    while !fin
        invariant
            events@ + remaining(src) == events_of_text(text@),
            fin ==> remaining(src).len() == 0,
        decreases remaining(src).len() + (if fin { 0int } else { 1 }),
    {
        match src.next_event() {
            None => {
                fin = true;
            },
            Some(e) => {
                events.push(e);
                proof {
                    assert(events@ + remaining(src) =~= events_of_text(text@));
                }
            },
        }
    }
    proof {
        assert(events@ =~= events_of_text(text@));
    }
    events
}

} // verus!
