//! The envelope's wire form: a JSON object with a `"type"` discriminator,
//! `"data"` for a success, `"message"` and an optional `"code"` for the two
//! failures, and never the status. Serialization, canonical deserialization,
//! and the round-trip law that the wire text pins the logical outcome down.

use vstd::prelude::*;
use vstd::slice::{slice_index_get, slice_subrange};
use crate::Brest;
use crate::wire::{
    WireData,
    escaped,
    quoted,
    scan_quoted,
    scan_quoted_exec,
    chars_to_string,
    str_to_chars,
    lemma_scan_escaped,
    lemma_scan_canonical,
};

verus! {

// ------------------------------------------------------------------
// The wire form of an envelope
// ------------------------------------------------------------------

/// The opening of every envelope: `{"type":"`.
pub open spec fn lit_type() -> Seq<char> {
    seq!['{', '"', 't', 'y', 'p', 'e', '"', ':', '"']
}

/// What follows the opening for a successful envelope: `success","data":`.
pub open spec fn lit_success() -> Seq<char> {
    seq!['s', 'u', 'c', 'c', 'e', 's', 's', '"', ',', '"', 'd', 'a', 't', 'a', '"', ':']
}

/// What follows the opening for an error envelope: `error","message":`.
pub open spec fn lit_error() -> Seq<char> {
    seq!['e', 'r', 'r', 'o', 'r', '"', ',', '"', 'm', 'e', 's', 's', 'a', 'g', 'e', '"', ':']
}

/// What follows the opening for a fail envelope: `fail","message":`.
pub open spec fn lit_fail() -> Seq<char> {
    seq!['f', 'a', 'i', 'l', '"', ',', '"', 'm', 'e', 's', 's', 'a', 'g', 'e', '"', ':']
}

/// The key that introduces a code: `,"code":`.
pub open spec fn lit_code() -> Seq<char> {
    seq![',', '"', 'c', 'o', 'd', 'e', '"', ':']
}

/// The wire text a code contributes: nothing at all when absent (never a
/// `null`), the code key and the code's own text when present.
pub open spec fn code_wire<C: WireData>(code: Option<C>) -> Seq<char> {
    match code {
        None => Seq::empty(),
        Some(c) => lit_code() + c.wire(),
    }
}

/// The canonical wire text of an envelope: a JSON object with a `type`
/// discriminator; `data` with the payload for a success, `message` (and
/// `code` only when one was supplied) for the failures. The status never
/// appears.
pub open spec fn wire_of<D: WireData, C: WireData>(e: Brest<D, C>) -> Seq<char> {
    match e {
        Brest::Success { data, .. } => lit_type() + lit_success() + data.wire() + seq!['}'],
        Brest::Error { message, code, .. } => lit_type() + lit_error() + quoted(message@)
            + code_wire(code) + seq!['}'],
        Brest::Fail { message, code, .. } => lit_type() + lit_fail() + quoted(message@)
            + code_wire(code) + seq!['}'],
    }
}

/// The two envelopes are the same logical outcome: same variant, same
/// abstract payload, same message text, same code. The presentation-only
/// status is not compared.
pub open spec fn same_outcome<D: WireData, C: WireData>(a: Brest<D, C>, b: Brest<D, C>) -> bool {
    match (a, b) {
        (Brest::Success { data: d1, .. }, Brest::Success { data: d2, .. }) => d1.deep_view()
            == d2.deep_view(),
        (
            Brest::Error { message: m1, code: c1, .. },
            Brest::Error { message: m2, code: c2, .. },
        ) => m1@ == m2@ && c1.deep_view() == c2.deep_view(),
        (Brest::Fail { message: m1, code: c1, .. }, Brest::Fail { message: m2, code: c2, .. }) => m1@
            == m2@ && c1.deep_view() == c2.deep_view(),
        _ => false,
    }
}

// ------------------------------------------------------------------
// Serialization
// ------------------------------------------------------------------

/// Appends `{"type":"`.
fn push_lit_type(out: &mut Vec<char>)
    ensures
        final(out)@ == old(out)@ + lit_type(),
{
    out.push('{');
    out.push('"');
    out.push('t');
    out.push('y');
    out.push('p');
    out.push('e');
    out.push('"');
    out.push(':');
    out.push('"');
    proof {
        assert(out@ =~= old(out)@ + lit_type());
    }
}

/// Appends `success","data":`.
fn push_lit_success(out: &mut Vec<char>)
    ensures
        final(out)@ == old(out)@ + lit_success(),
{
    out.push('s');
    out.push('u');
    out.push('c');
    out.push('c');
    out.push('e');
    out.push('s');
    out.push('s');
    out.push('"');
    out.push(',');
    out.push('"');
    out.push('d');
    out.push('a');
    out.push('t');
    out.push('a');
    out.push('"');
    out.push(':');
    proof {
        assert(out@ =~= old(out)@ + lit_success());
    }
}

/// Appends `error","message":`.
fn push_lit_error(out: &mut Vec<char>)
    ensures
        final(out)@ == old(out)@ + lit_error(),
{
    out.push('e');
    out.push('r');
    out.push('r');
    out.push('o');
    out.push('r');
    out.push('"');
    out.push(',');
    out.push('"');
    out.push('m');
    out.push('e');
    out.push('s');
    out.push('s');
    out.push('a');
    out.push('g');
    out.push('e');
    out.push('"');
    out.push(':');
    proof {
        assert(out@ =~= old(out)@ + lit_error());
    }
}

/// Appends `fail","message":`.
fn push_lit_fail(out: &mut Vec<char>)
    ensures
        final(out)@ == old(out)@ + lit_fail(),
{
    out.push('f');
    out.push('a');
    out.push('i');
    out.push('l');
    out.push('"');
    out.push(',');
    out.push('"');
    out.push('m');
    out.push('e');
    out.push('s');
    out.push('s');
    out.push('a');
    out.push('g');
    out.push('e');
    out.push('"');
    out.push(':');
    proof {
        assert(out@ =~= old(out)@ + lit_fail());
    }
}

/// Appends `,"code":`.
fn push_lit_code(out: &mut Vec<char>)
    ensures
        final(out)@ == old(out)@ + lit_code(),
{
    out.push(',');
    out.push('"');
    out.push('c');
    out.push('o');
    out.push('d');
    out.push('e');
    out.push('"');
    out.push(':');
    proof {
        assert(out@ =~= old(out)@ + lit_code());
    }
}

impl<D: WireData, C: WireData> Brest<D, C> {
    /// The canonical JSON body of the envelope.
    pub fn to_json(&self) -> (r: String)
        ensures
            r@ == wire_of(*self),
    {
        let mut out: Vec<char> = Vec::new();
        push_lit_type(&mut out);
        match self {
            Brest::Success { data, .. } => {
                push_lit_success(&mut out);
                data.encode(&mut out);
                out.push('}');
                proof {
                    assert(out@ =~= wire_of(*self));
                }
            },
            Brest::Error { message, code, .. } => {
                push_lit_error(&mut out);
                message.encode(&mut out);
                match code {
                    Some(c) => {
                        push_lit_code(&mut out);
                        c.encode(&mut out);
                    },
                    None => {},
                }
                out.push('}');
                proof {
                    assert(out@ =~= wire_of(*self));
                }
            },
            Brest::Fail { message, code, .. } => {
                push_lit_fail(&mut out);
                message.encode(&mut out);
                match code {
                    Some(c) => {
                        push_lit_code(&mut out);
                        c.encode(&mut out);
                    },
                    None => {},
                }
                out.push('}');
                proof {
                    assert(out@ =~= wire_of(*self));
                }
            },
        }
        chars_to_string(&out)
    }

    /// The envelope as an HTTP response: its status, and its canonical JSON
    /// body. The status comes from the instance alone, never from the body.
    pub fn to_response(&self) -> (r: (u16, String))
        ensures
            r.0 == self.spec_status(),
            r.1@ == wire_of(*self),
    {
        (self.status(), self.to_json())
    }
}

// ------------------------------------------------------------------
// Deserialization
// ------------------------------------------------------------------

/// The characters of `{"type":"`.
fn lit_type_chars() -> (r: Vec<char>)
    ensures
        r@ == lit_type(),
{
    let mut v: Vec<char> = Vec::new();
    push_lit_type(&mut v);
    proof {
        assert(v@ =~= lit_type());
    }
    v
}

/// The characters of `success","data":`.
fn lit_success_chars() -> (r: Vec<char>)
    ensures
        r@ == lit_success(),
{
    let mut v: Vec<char> = Vec::new();
    push_lit_success(&mut v);
    proof {
        assert(v@ =~= lit_success());
    }
    v
}

/// The characters of `error","message":`.
fn lit_error_chars() -> (r: Vec<char>)
    ensures
        r@ == lit_error(),
{
    let mut v: Vec<char> = Vec::new();
    push_lit_error(&mut v);
    proof {
        assert(v@ =~= lit_error());
    }
    v
}

/// The characters of `fail","message":`.
fn lit_fail_chars() -> (r: Vec<char>)
    ensures
        r@ == lit_fail(),
{
    let mut v: Vec<char> = Vec::new();
    push_lit_fail(&mut v);
    proof {
        assert(v@ =~= lit_fail());
    }
    v
}

/// The characters of `,"code":`.
fn lit_code_chars() -> (r: Vec<char>)
    ensures
        r@ == lit_code(),
{
    let mut v: Vec<char> = Vec::new();
    push_lit_code(&mut v);
    proof {
        assert(v@ =~= lit_code());
    }
    v
}

/// Whether the characters of `pat` stand in `s` starting at `at`.
fn starts_with(s: &[char], at: usize, pat: &Vec<char>) -> (b: bool)
    requires
        at <= s@.len(),
    ensures
        b == (at + pat@.len() <= s@.len() && s@.subrange(
            at as int,
            at as int + pat@.len() as int,
        ) == pat@),
{
    if pat.len() > s.len() - at {
        return false;
    }
    let ghost sub = s@.subrange(at as int, at as int + pat@.len() as int);
    let mut i: usize = 0;
    while i < pat.len()
        invariant
            0 <= i <= pat@.len(),
            at + pat@.len() <= s@.len(),
            s@.len() <= usize::MAX,
            sub == s@.subrange(at as int, at as int + pat@.len() as int),
            forall|j: int| 0 <= j < i ==> s@[at + j] == pat@[j],
        decreases pat@.len() - i,
    {
        let c = *slice_index_get(s, at + i);
        if c != pat[i] {
            proof {
                assert(sub[i as int] == s@[at + i]);
            }
            return false;
        }
        i = i + 1;
    }
    proof {
        assert(sub =~= pat@);
    }
    true
}

/// A canonical failure tail starting at `at` (quoted message, code text,
/// closing brace) fixes what the scanner finds there: the opening quote at
/// `at`, and a scan from `at + 1` that yields exactly the message and leaves
/// exactly the code text and the brace.
proof fn lemma_failure_tail_shape<C: WireData>(s: Seq<char>, at: int, m: Seq<char>, c: Option<C>)
    requires
        0 <= at <= s.len(),
        s.skip(at) == quoted(m) + code_wire(c) + seq!['}'],
    ensures
        at < s.len(),
        s[at] == '"',
        scan_quoted(s.skip(at + 1)) == Some((m, code_wire(c) + seq!['}'])),
{
    let tail = s.skip(at);
    assert(tail.len() == quoted(m).len() + code_wire(c).len() + 1);
    assert(quoted(m).len() >= 2);
    assert(tail.len() == s.len() - at);
    assert(tail[0] == '"');
    assert(s[at] == tail[0]);
    lemma_scan_escaped(m, code_wire(c) + seq!['}']);
    assert(s.skip(at + 1) =~= tail.drop_first());
    assert(tail.drop_first() =~= escaped(m) + seq!['"'] + (code_wire(c) + seq!['}']));
}

/// Splitting a code tail: when what follows the message's closing quote is
/// the code key, a code text and the brace, the text between key and brace
/// is exactly the code text.
proof fn lemma_code_region(s: Seq<char>, end: int, w: Seq<char>)
    requires
        0 <= end <= s.len(),
        s.skip(end) == lit_code() + w + seq!['}'],
    ensures
        s.len() == end + 9 + w.len(),
        s.subrange(end + 8, s.len() - 1) == w,
        s.subrange(end, end + 8) == lit_code(),
        s[s.len() - 1] == '}',
{
    let t = s.skip(end);
    assert(t.len() == 9 + w.len());
    assert forall|k: int| 0 <= k < w.len() implies s.subrange(end + 8, s.len() - 1)[k] == w[k] by {
        assert(s.subrange(end + 8, s.len() - 1)[k] == s[end + 8 + k]);
        assert(t[8 + k] == s[end + 8 + k]);
        assert(t[8 + k] == w[k]);
    }
    assert(s.subrange(end + 8, s.len() - 1) =~= w);
    assert forall|k: int| 0 <= k < 8 implies s.subrange(end, end + 8)[k] == lit_code()[k] by {
        assert(s.subrange(end, end + 8)[k] == s[end + k]);
        assert(t[k] == s[end + k]);
        assert(t[k] == lit_code()[k]);
    }
    assert(s.subrange(end, end + 8) =~= lit_code());
    assert(t[t.len() - 1] == s[end + t.len() - 1]);
    assert(t[t.len() - 1] == '}');
}

/// Parses the failure half of an envelope body starting at `at`: the quoted
/// message, then either the closing brace, or the `code` key, a code and the
/// closing brace. Accepts exactly the canonical texts.
#[verifier::rlimit(60)]
fn parse_failure_tail<C: WireData>(s: &[char], at: usize) -> (r: Option<(String, Option<C>)>)
    requires
        at <= s@.len(),
    ensures
        r matches Some(p) ==> s@.skip(at as int) == quoted(p.0@) + code_wire(p.1) + seq!['}'],
        r is None ==> forall|m: Seq<char>, c: Option<C>|
            #![trigger quoted(m), code_wire(c)]
            s@.skip(at as int) != quoted(m) + code_wire(c) + seq!['}'],
{
    let ghost tail = s@.skip(at as int);
    if at == s.len() || *slice_index_get(s, at) != '"' {
        proof {
            assert forall|m: Seq<char>, c: Option<C>|
                #![trigger quoted(m), code_wire(c)]
                tail != quoted(m) + code_wire(c) + seq!['}'] by {
                if tail == quoted(m) + code_wire(c) + seq!['}'] {
                    lemma_failure_tail_shape::<C>(s@, at as int, m, c);
                    assert(false);
                }
            }
        }
        return None;
    }
    match scan_quoted_exec(s, at + 1) {
        None => {
            proof {
                assert forall|m: Seq<char>, c: Option<C>|
                    #![trigger quoted(m), code_wire(c)]
                    tail != quoted(m) + code_wire(c) + seq!['}'] by {
                    if tail == quoted(m) + code_wire(c) + seq!['}'] {
                        lemma_failure_tail_shape::<C>(s@, at as int, m, c);
                        assert(false);
                    }
                }
            }
            None
        },
        Some((body, end)) => {
            proof {
                lemma_scan_canonical(s@.skip(at as int + 1), body@, s@.skip(end as int));
                assert(s@.skip(at as int) =~= seq![s@[at as int]] + s@.skip(at as int + 1));
                assert(tail =~= quoted(body@) + s@.skip(end as int));
            }
            if end == s.len() {
                proof {
                    assert forall|m: Seq<char>, c: Option<C>|
                        #![trigger quoted(m), code_wire(c)]
                        tail != quoted(m) + code_wire(c) + seq!['}'] by {
                        if tail == quoted(m) + code_wire(c) + seq!['}'] {
                            lemma_failure_tail_shape::<C>(s@, at as int, m, c);
                            assert(s@.skip(end as int) == code_wire(c) + seq!['}']);
                            assert(s@.skip(end as int).len() == 0);
                            assert(false);
                        }
                    }
                }
                return None;
            }
            if s.len() - end == 1 {
                if *slice_index_get(s, end) == '}' {
                    let message = chars_to_string(&body);
                    proof {
                        assert(s@.skip(end as int) =~= seq!['}']);
                        assert(code_wire(None::<C>) + seq!['}'] =~= seq!['}']);
                        assert(tail =~= quoted(message@) + code_wire(None::<C>) + seq!['}']);
                    }
                    return Some((message, None));
                } else {
                    proof {
                        assert forall|m: Seq<char>, c: Option<C>|
                            #![trigger quoted(m), code_wire(c)]
                            tail != quoted(m) + code_wire(c) + seq!['}'] by {
                            if tail == quoted(m) + code_wire(c) + seq!['}'] {
                                lemma_failure_tail_shape::<C>(s@, at as int, m, c);
                                assert(s@.skip(end as int) == code_wire(c) + seq!['}']);
                                match c {
                                    None => {
                                        assert(s@.skip(end as int) =~= seq!['}']);
                                        assert(s@.skip(end as int)[0] == s@[end as int]);
                                        assert(s@[end as int] == '}');
                                    },
                                    Some(x) => {
                                        assert((code_wire(c) + seq!['}']).len() >= 9);
                                    },
                                }
                                assert(false);
                            }
                        }
                    }
                    return None;
                }
            }
            let lc = lit_code_chars();
            if !starts_with(s, end, &lc) || *slice_index_get(s, s.len() - 1) != '}' {
                proof {
                    assert forall|m: Seq<char>, c: Option<C>|
                        #![trigger quoted(m), code_wire(c)]
                        tail != quoted(m) + code_wire(c) + seq!['}'] by {
                        if tail == quoted(m) + code_wire(c) + seq!['}'] {
                            lemma_failure_tail_shape::<C>(s@, at as int, m, c);
                            assert(s@.skip(end as int) == code_wire(c) + seq!['}']);
                            match c {
                                None => {
                                    assert(s@.skip(end as int).len() == 1);
                                },
                                Some(x) => {
                                    assert(s@.skip(end as int) =~= lit_code() + x.wire()
                                        + seq!['}']);
                                    lemma_code_region(s@, end as int, x.wire());
                                },
                            }
                            assert(false);
                        }
                    }
                }
                return None;
            }
            let region = slice_subrange(s, end + 8, s.len() - 1);
            match C::decode(region) {
                Some(code) => {
                    let message = chars_to_string(&body);
                    proof {
                        assert(s@.skip(end as int) =~= lit_code() + region@ + seq!['}']);
                        assert(code_wire(Some(code)) =~= lit_code() + code.wire());
                        assert(tail =~= quoted(message@) + code_wire(Some(code)) + seq!['}']);
                    }
                    Some((message, Some(code)))
                },
                None => {
                    proof {
                        assert forall|m: Seq<char>, c: Option<C>|
                            #![trigger quoted(m), code_wire(c)]
                            tail != quoted(m) + code_wire(c) + seq!['}'] by {
                            if tail == quoted(m) + code_wire(c) + seq!['}'] {
                                lemma_failure_tail_shape::<C>(s@, at as int, m, c);
                                assert(s@.skip(end as int) == code_wire(c) + seq!['}']);
                                match c {
                                    None => {
                                        assert(s@.skip(end as int).len() == 1);
                                    },
                                    Some(x) => {
                                        assert(s@.skip(end as int) =~= lit_code() + x.wire()
                                            + seq!['}']);
                                        lemma_code_region(s@, end as int, x.wire());
                                        assert(region@ == x.wire());
                                    },
                                }
                                assert(false);
                            }
                        }
                    }
                    None
                },
            }
        },
    }
}

/// The shape that any envelope's wire text has: the `type` opening, the
/// variant's own literal at position nine, a closing brace at the end, and
/// the variant's payload or failure tail in between.
#[verifier::rlimit(60)]
proof fn lemma_wire_shape<D: WireData, C: WireData>(x: Brest<D, C>, s: Seq<char>)
    requires
        wire_of(x) == s,
    ensures
        s.len() >= 26,
        s.subrange(0, 9) == lit_type(),
        s[s.len() - 1] == '}',
        s.subrange(9, 25)[0] == s[9],
        s.subrange(9, 26)[0] == s[9],
        x matches Brest::Success { data, .. } ==> s[9] == 's' && s.subrange(9, 25) == lit_success()
            && s.subrange(25, s.len() - 1) == data.wire(),
        x matches Brest::Error { message, code, .. } ==> s[9] == 'e' && s.subrange(9, 26)
            == lit_error() && s.skip(26) == quoted(message@) + code_wire(code) + seq!['}'],
        x matches Brest::Fail { message, code, .. } ==> s[9] == 'f' && s.subrange(9, 25)
            == lit_fail() && s.skip(25) == quoted(message@) + code_wire(code) + seq!['}'],
{
    match x {
        Brest::Success { data, .. } => {
            assert(s.len() == 26 + data.wire().len());
            assert(s.subrange(0, 9) =~= lit_type());
            assert(s.subrange(9, 25) =~= lit_success());
            assert(s.subrange(25, s.len() - 1) =~= data.wire());
            assert(s[s.len() - 1] == '}');
            assert(s[9] == 's');
        },
        Brest::Error { message, code, .. } => {
            assert(s.len() == 27 + quoted(message@).len() + code_wire(code).len());
            assert(quoted(message@).len() >= 2);
            assert(s.subrange(0, 9) =~= lit_type());
            assert(s.subrange(9, 26) =~= lit_error());
            assert(s.skip(26) =~= quoted(message@) + code_wire(code) + seq!['}']);
            assert(s[s.len() - 1] == '}');
            assert(s[9] == 'e');
        },
        Brest::Fail { message, code, .. } => {
            assert(s.len() == 26 + quoted(message@).len() + code_wire(code).len());
            assert(quoted(message@).len() >= 2);
            assert(s.subrange(0, 9) =~= lit_type());
            assert(s.subrange(9, 25) =~= lit_fail());
            assert(s.skip(25) =~= quoted(message@) + code_wire(code) + seq!['}']);
            assert(s[s.len() - 1] == '}');
            assert(s[9] == 'f');
        },
    }
}

impl<D: WireData, C: WireData> Brest<D, C> {
    /// Reads an envelope back from its canonical JSON body: the variant comes
    /// from `type`, the payload from `data` (required for a success), the
    /// message from `message` (required for the failures) and the code from
    /// `code` when that key is present. The status is not on the wire, so the
    /// envelope comes back with its variant's default status. Any text that
    /// is not the canonical wire form of some envelope reads as nothing.
    #[verifier::rlimit(60)]
    pub fn from_json(s: &str) -> (r: Option<Self>)
        ensures
            r matches Some(x) ==> wire_of(x) == s@ && x.spec_status() == x.spec_default_status(),
            r is None ==> forall|x: Brest<D, C>| (#[trigger] wire_of(x)) != s@,
    {
        let v = str_to_chars(s);
        let sl = v.as_slice();
        let tyl = lit_type_chars();
        if !starts_with(sl, 0, &tyl) {
            proof {
                assert forall|x: Brest<D, C>| (#[trigger] wire_of(x)) != s@ by {
                    if wire_of(x) == s@ {
                        lemma_wire_shape::<D, C>(x, s@);
                        assert(false);
                    }
                }
            }
            return None;
        }
        let suc = lit_success_chars();
        if starts_with(sl, 9, &suc) {
            if sl.len() < 26 || *slice_index_get(sl, sl.len() - 1) != '}' {
                proof {
                    assert forall|x: Brest<D, C>| (#[trigger] wire_of(x)) != s@ by {
                        if wire_of(x) == s@ {
                            lemma_wire_shape::<D, C>(x, s@);
                            assert(false);
                        }
                    }
                }
                return None;
            }
            let region = slice_subrange(sl, 25, sl.len() - 1);
            match D::decode(region) {
                Some(data) => {
                    proof {
                        assert(s@ =~= lit_type() + lit_success() + region@ + seq!['}']);
                    }
                    Some(Brest::Success { data, status: 200 })
                },
                None => {
                    proof {
                        assert forall|x: Brest<D, C>| (#[trigger] wire_of(x)) != s@ by {
                            if wire_of(x) == s@ {
                                lemma_wire_shape::<D, C>(x, s@);
                                match x {
                                    Brest::Success { data, .. } => {
                                        assert(data.wire() == region@);
                                    },
                                    _ => {
                                        assert(lit_success()[0] == 's');
                                    },
                                }
                                assert(false);
                            }
                        }
                    }
                    None
                },
            }
        } else {
            let err = lit_error_chars();
            if starts_with(sl, 9, &err) {
                match parse_failure_tail::<C>(sl, 26) {
                    Some((message, code)) => {
                        proof {
                            assert(s@ =~= lit_type() + lit_error() + (quoted(message@) + code_wire(
                                code,
                            ) + seq!['}']));
                            assert(s@ =~= lit_type() + lit_error() + quoted(message@) + code_wire(
                                code,
                            ) + seq!['}']);
                        }
                        Some(Brest::Error { message, code, status: 500 })
                    },
                    None => {
                        proof {
                            assert forall|x: Brest<D, C>| (#[trigger] wire_of(x)) != s@ by {
                                if wire_of(x) == s@ {
                                    lemma_wire_shape::<D, C>(x, s@);
                                    match x {
                                        Brest::Error { message, code, .. } => {
                                            assert(s@.skip(26) == quoted(message@) + code_wire(
                                                code,
                                            ) + seq!['}']);
                                        },
                                        _ => {
                                            assert(lit_error()[0] == 'e');
                                        },
                                    }
                                    assert(false);
                                }
                            }
                        }
                        None
                    },
                }
            } else {
                let fal = lit_fail_chars();
                if starts_with(sl, 9, &fal) {
                    match parse_failure_tail::<C>(sl, 25) {
                        Some((message, code)) => {
                            proof {
                                assert(s@ =~= lit_type() + lit_fail() + (quoted(message@)
                                    + code_wire(code) + seq!['}']));
                                assert(s@ =~= lit_type() + lit_fail() + quoted(message@)
                                    + code_wire(code) + seq!['}']);
                            }
                            Some(Brest::Fail { message, code, status: 400 })
                        },
                        None => {
                            proof {
                                assert forall|x: Brest<D, C>| (#[trigger] wire_of(x)) != s@ by {
                                    if wire_of(x) == s@ {
                                        lemma_wire_shape::<D, C>(x, s@);
                                        match x {
                                            Brest::Fail { message, code, .. } => {
                                                assert(s@.skip(25) == quoted(message@) + code_wire(
                                                    code,
                                                ) + seq!['}']);
                                            },
                                            _ => {
                                                assert(lit_fail()[0] == 'f');
                                            },
                                        }
                                        assert(false);
                                    }
                                }
                            }
                            None
                        },
                    }
                } else {
                    proof {
                        assert forall|x: Brest<D, C>| (#[trigger] wire_of(x)) != s@ by {
                            if wire_of(x) == s@ {
                                lemma_wire_shape::<D, C>(x, s@);
                                assert(false);
                            }
                        }
                    }
                    None
                }
            }
        }
    }
}

// ------------------------------------------------------------------
// The wire form pins the outcome down
// ------------------------------------------------------------------

/// Two envelopes with the same wire text are the same logical outcome: the
/// wire form forgets nothing but the presentation-only status. Together with
/// the contracts of `to_json` and `from_json` this is the round-trip law:
/// parsing a serialized envelope yields that envelope back, up to status.
pub proof fn lemma_wire_round_trip<D: WireData, C: WireData>(a: Brest<D, C>, b: Brest<D, C>)
    requires
        wire_of(a) == wire_of(b),
    ensures
        same_outcome(a, b),
{
    let wa = wire_of(a);
    let wb = wire_of(b);
    match (a, b) {
        (Brest::Success { data: d1, .. }, Brest::Success { data: d2, .. }) => {
            let n1 = d1.wire().len() as int;
            let n2 = d2.wire().len() as int;
            assert(wa.len() == 26 + n1 && wb.len() == 26 + n2);
            assert(d1.wire() =~= wa.subrange(25, 25 + n1));
            assert(d2.wire() =~= wb.subrange(25, 25 + n2));
            D::lemma_wire_injective(&d1, &d2);
        },
        (
            Brest::Error { message: m1, code: c1, .. },
            Brest::Error { message: m2, code: c2, .. },
        ) => {
            assert(wa.skip(26) =~= quoted(m1@) + code_wire(c1) + seq!['}']);
            assert(wb.skip(26) =~= quoted(m2@) + code_wire(c2) + seq!['}']);
            lemma_same_failure_tail(m1@, c1, m2@, c2, wa.skip(26));
        },
        (
            Brest::Fail { message: m1, code: c1, .. },
            Brest::Fail { message: m2, code: c2, .. },
        ) => {
            assert(wa.skip(25) =~= quoted(m1@) + code_wire(c1) + seq!['}']);
            assert(wb.skip(25) =~= quoted(m2@) + code_wire(c2) + seq!['}']);
            lemma_same_failure_tail(m1@, c1, m2@, c2, wa.skip(25));
        },
        (Brest::Success { data: d1, .. }, Brest::Error { .. }) => {
            assert(wa[9] == 's' && wb[9] == 'e');
        },
        (Brest::Success { data: d1, .. }, Brest::Fail { .. }) => {
            assert(wa[9] == 's' && wb[9] == 'f');
        },
        (Brest::Error { .. }, Brest::Success { .. }) => {
            assert(wa[9] == 'e' && wb[9] == 's');
        },
        (Brest::Error { .. }, Brest::Fail { .. }) => {
            assert(wa[9] == 'e' && wb[9] == 'f');
        },
        (Brest::Fail { .. }, Brest::Success { .. }) => {
            assert(wa[9] == 'f' && wb[9] == 's');
        },
        (Brest::Fail { .. }, Brest::Error { .. }) => {
            assert(wa[9] == 'f' && wb[9] == 'e');
        },
    }
}

/// A shared failure tail (`"message"` value, optional `"code"`, closing
/// brace) determines the message text and the code.
proof fn lemma_same_failure_tail<C: WireData>(
    m1: Seq<char>,
    c1: Option<C>,
    m2: Seq<char>,
    c2: Option<C>,
    tail: Seq<char>,
)
    requires
        tail == quoted(m1) + code_wire(c1) + seq!['}'],
        tail == quoted(m2) + code_wire(c2) + seq!['}'],
    ensures
        m1 == m2,
        c1.deep_view() == c2.deep_view(),
{
    lemma_scan_escaped(m1, code_wire(c1) + seq!['}']);
    lemma_scan_escaped(m2, code_wire(c2) + seq!['}']);
    assert(tail.drop_first() =~= escaped(m1) + seq!['"'] + (code_wire(c1) + seq!['}']));
    assert(tail.drop_first() =~= escaped(m2) + seq!['"'] + (code_wire(c2) + seq!['}']));
    assert(m1 == m2 && code_wire(c1) + seq!['}'] == code_wire(c2) + seq!['}']);
    let t1 = code_wire(c1) + seq!['}'];
    match (c1, c2) {
        (None, None) => {
        },
        (Some(x1), Some(x2)) => {
            let k1 = x1.wire().len() as int;
            let k2 = x2.wire().len() as int;
            assert(t1.len() == 9 + k1 && t1.len() == 9 + k2);
            assert(x1.wire() =~= t1.subrange(8, 8 + k1));
            assert(x2.wire() =~= (code_wire(c2) + seq!['}']).subrange(8, 8 + k2));
            C::lemma_wire_injective(&x1, &x2);
        },
        (None, Some(x2)) => {
            assert(t1.len() == 1);
            assert((code_wire(c2) + seq!['}']).len() >= 9);
        },
        (Some(x1), None) => {
            assert(t1.len() >= 9);
            assert((code_wire(c2) + seq!['}']).len() == 1);
        },
    }
}

} // verus!
