//! The values an envelope can carry on the wire: the [`WireData`] trait ties
//! each carried type to one canonical JSON text, with a proved-injective
//! encoder and a decoder that accepts exactly the canonical texts. Strings
//! are quoted and escaped, codes are plain decimal numbers, and the unit
//! payload is the literal `null`.

use vstd::prelude::*;
use vstd::slice::slice_index_get;
use vstd::string::StrSliceExecFns;

verus! {

// ------------------------------------------------------------------
// Characters of the wire form
// ------------------------------------------------------------------

/// The lowercase hexadecimal digit with value `n`.
pub open spec fn hex_digit(n: int) -> char
    recommends
        0 <= n < 16,
{
    if n == 0 {
        '0'
    } else if n == 1 {
        '1'
    } else if n == 2 {
        '2'
    } else if n == 3 {
        '3'
    } else if n == 4 {
        '4'
    } else if n == 5 {
        '5'
    } else if n == 6 {
        '6'
    } else if n == 7 {
        '7'
    } else if n == 8 {
        '8'
    } else if n == 9 {
        '9'
    } else if n == 10 {
        'a'
    } else if n == 11 {
        'b'
    } else if n == 12 {
        'c'
    } else if n == 13 {
        'd'
    } else if n == 14 {
        'e'
    } else {
        'f'
    }
}

/// True of the lowercase hexadecimal digits.
pub open spec fn is_hex_digit(c: char) -> bool {
    ('0' <= c && c <= '9') || ('a' <= c && c <= 'f')
}

/// The value of a lowercase hexadecimal digit.
pub open spec fn hex_val(c: char) -> int {
    if '0' <= c && c <= '9' {
        c as int - '0' as int
    } else {
        c as int - 'a' as int + 10
    }
}

/// A character that stands for itself inside a quoted JSON string:
/// anything but the quote, the backslash and the control characters.
pub open spec fn plain_char(c: char) -> bool {
    c != '"' && c != '\\' && (c as u32) >= 32
}

/// The canonical escape of one character inside a quoted JSON string:
/// quote, backslash, newline, carriage return and tab get their two-character
/// escapes, any other control character the six-character `\u00XX` form with
/// lowercase hexadecimal digits, and everything else stands for itself.
pub open spec fn escaped_char(c: char) -> Seq<char> {
    if c == '"' {
        seq!['\\', '"']
    } else if c == '\\' {
        seq!['\\', '\\']
    } else if c == '\n' {
        seq!['\\', 'n']
    } else if c == '\r' {
        seq!['\\', 'r']
    } else if c == '\t' {
        seq!['\\', 't']
    } else if (c as u32) < 32 {
        seq!['\\', 'u', '0', '0', hex_digit(((c as u32) as int) / 16), hex_digit(((c as u32) as int) % 16)]
    } else {
        seq![c]
    }
}

/// The canonical escaped body of a quoted JSON string.
pub open spec fn escaped(s: Seq<char>) -> Seq<char>
    decreases s.len(),
{
    if s.len() == 0 {
        Seq::empty()
    } else {
        escaped_char(s[0]) + escaped(s.drop_first())
    }
}

/// The canonical JSON text of a string value: a quote, the escaped body,
/// a closing quote.
pub open spec fn quoted(s: Seq<char>) -> Seq<char> {
    seq!['"'] + escaped(s) + seq!['"']
}

// ------------------------------------------------------------------
// Scanning a quoted string back out of the wire form
// ------------------------------------------------------------------

/// Reads one string-body character from the front of `s`: a plain character,
/// or one canonical escape. Yields the character it stands for and how many
/// input characters it took. Non-canonical text (a stray control character,
/// an unknown escape, a `\u00XX` form for a character that has a shorter
/// escape) reads as nothing.
pub open spec fn scan_step(s: Seq<char>) -> Option<(char, int)> {
    if s.len() >= 1 && plain_char(s[0]) {
        Some((s[0], 1))
    } else if s.len() >= 2 && s[0] == '\\' {
        if s[1] == '"' {
            Some(('"', 2))
        } else if s[1] == '\\' {
            Some(('\\', 2))
        } else if s[1] == 'n' {
            Some(('\n', 2))
        } else if s[1] == 'r' {
            Some(('\r', 2))
        } else if s[1] == 't' {
            Some(('\t', 2))
        } else if s.len() >= 6 && s[1] == 'u' && s[2] == '0' && s[3] == '0' && is_hex_digit(s[4])
            && is_hex_digit(s[5]) {
            let v = hex_val(s[4]) * 16 + hex_val(s[5]);
            if v < 32 && v != 9 && v != 10 && v != 13 {
                Some(((v as char), 6))
            } else {
                None
            }
        } else {
            None
        }
    } else {
        None
    }
}

/// Scans the body of a quoted JSON string up to its closing quote. On
/// success, yields the decoded characters and whatever follows the quote.
pub open spec fn scan_quoted(s: Seq<char>) -> Option<(Seq<char>, Seq<char>)>
    decreases s.len(),
{
    if s.len() == 0 {
        None
    } else if s[0] == '"' {
        Some((Seq::empty(), s.drop_first()))
    } else {
        match scan_step(s) {
            Some((c, n)) => if 1 <= n <= s.len() {
                match scan_quoted(s.skip(n)) {
                    Some((body, rest)) => Some((seq![c] + body, rest)),
                    None => None,
                }
            } else {
                None
            },
            None => None,
        }
    }
}

/// A lowercase hexadecimal digit holds the value it was built from, and is
/// neither a quote nor a backslash.
proof fn lemma_hex_digit_val(n: int)
    requires
        0 <= n < 16,
    ensures
        is_hex_digit(hex_digit(n)),
        hex_val(hex_digit(n)) == n,
        hex_digit(n) != '"',
        hex_digit(n) != '\\',
{
}

/// A lowercase hexadecimal digit character carries a value below 16, and the
/// digit of that value is the character itself.
proof fn lemma_hex_val_digit(d: char)
    requires
        is_hex_digit(d),
    ensures
        0 <= hex_val(d) < 16,
        hex_digit(hex_val(d)) == d,
{
    assert(((d as u32) as char) == d);
}

/// The escape of any character is one to six characters long and never
/// starts with a quote.
proof fn lemma_escaped_char_shape(c: char)
    ensures
        1 <= escaped_char(c).len() <= 6,
        escaped_char(c)[0] != '"',
{
}

/// Whatever one character escapes to, a single scanning step reads that
/// character back, whatever follows the escape.
proof fn lemma_scan_step_of_escape(c: char, rest: Seq<char>)
    ensures
        scan_step(escaped_char(c) + rest) == Some((c, escaped_char(c).len() as int)),
{
    let s = escaped_char(c) + rest;
    if c == '"' || c == '\\' || c == '\n' || c == '\r' || c == '\t' {
        assert(s[0] == '\\');
    } else if (c as u32) < 32 {
        let v = (c as u32) as int;
        lemma_hex_digit_val(v / 16);
        lemma_hex_digit_val(v % 16);
        assert(s[0] == '\\' && s[1] == 'u' && s[2] == '0' && s[3] == '0');
        assert(s[4] == hex_digit(v / 16) && s[5] == hex_digit(v % 16));
        assert(hex_val(s[4]) * 16 + hex_val(s[5]) == v);
        assert((v as char) == c);
    } else {
        assert(plain_char(c));
        assert(s[0] == c);
    }
}

/// A successful single step only ever reads canonical text: the consumed
/// input is exactly the escape of the character it returned.
proof fn lemma_scan_step_canonical(s: Seq<char>, c: char, n: int)
    requires
        scan_step(s) == Some((c, n)),
    ensures
        1 <= n <= s.len(),
        s.take(n) == escaped_char(c),
{
    if s.len() >= 1 && plain_char(s[0]) {
        assert(s.take(1) =~= seq![s[0]]);
    } else {
        assert(s[0] == '\\');
        if s[1] == '"' || s[1] == '\\' || s[1] == 'n' || s[1] == 'r' || s[1] == 't' {
            assert(s.take(2) =~= seq![s[0], s[1]]);
        } else {
            let v = hex_val(s[4]) * 16 + hex_val(s[5]);
            lemma_hex_val_digit(s[4]);
            lemma_hex_val_digit(s[5]);
            assert(v / 16 == hex_val(s[4]) && v % 16 == hex_val(s[5]));
            assert(((v as char) as u32) == v);
            assert(escaped_char(c) == seq![
                '\\',
                'u',
                '0',
                '0',
                hex_digit(v / 16),
                hex_digit(v % 16),
            ]);
            assert(s.take(6) =~= seq!['\\', 'u', '0', '0', s[4], s[5]]);
            assert(s.take(6) =~= escaped_char(c));
        }
    }
}

/// Scanning the escaped body of any string finds exactly that string and
/// stops at the closing quote, leaving the tail untouched.
pub proof fn lemma_scan_escaped(m: Seq<char>, tail: Seq<char>)
    ensures
        scan_quoted(escaped(m) + seq!['"'] + tail) matches Some((body, rest)) && body == m
            && rest == tail,
    decreases m.len(),
{
    let s = escaped(m) + seq!['"'] + tail;
    if m.len() == 0 {
        assert(escaped(m) =~= Seq::<char>::empty());
        assert(s[0] == '"');
        assert(s.drop_first() =~= tail);
    } else {
        let c = m[0];
        let e = escaped_char(c);
        let m2 = m.drop_first();
        assert(escaped(m) == e + escaped(m2));
        lemma_escaped_char_shape(c);
        assert(s =~= e + (escaped(m2) + seq!['"'] + tail));
        lemma_scan_step_of_escape(c, escaped(m2) + seq!['"'] + tail);
        assert(s[0] == e[0]);
        assert(s[0] != '"');
        let n = e.len() as int;
        assert(s.skip(n) =~= escaped(m2) + seq!['"'] + tail);
        lemma_scan_escaped(m2, tail);
        assert(seq![c] + m2 =~= m);
    }
}

/// A successful scan only ever reads canonical text: the input is exactly
/// the escaped body it decoded, the closing quote, and the leftover.
pub proof fn lemma_scan_canonical(s: Seq<char>, body: Seq<char>, rest: Seq<char>)
    requires
        scan_quoted(s) == Some((body, rest)),
    ensures
        s =~= escaped(body) + seq!['"'] + rest,
    decreases s.len(),
{
    if s[0] == '"' {
        assert(body =~= Seq::<char>::empty());
        assert(escaped(body) =~= Seq::<char>::empty());
        assert(s =~= seq!['"'] + s.drop_first());
    } else {
        match scan_step(s) {
            Some((c, n)) => {
                lemma_scan_step_canonical(s, c, n);
                match scan_quoted(s.skip(n)) {
                    Some((b2, r2)) => {
                        assert(body == seq![c] + b2 && rest == r2);
                        lemma_scan_canonical(s.skip(n), b2, r2);
                        assert(body.drop_first() =~= b2);
                        assert(body[0] == c);
                        assert(escaped(body) == escaped_char(c) + escaped(b2));
                        assert(s =~= s.take(n) + s.skip(n));
                        assert(s =~= escaped_char(c) + (escaped(b2) + seq!['"'] + rest));
                        assert(s =~= escaped(body) + seq!['"'] + rest);
                    },
                    None => {
                        assert(false);
                    },
                }
            },
            None => {
                assert(false);
            },
        }
    }
}

// ------------------------------------------------------------------
// Decimal numbers on the wire
// ------------------------------------------------------------------

/// True of the decimal digit characters.
pub open spec fn is_dec_digit(c: char) -> bool {
    48 <= (c as u32) <= 57
}

/// The value of a decimal digit character.
pub open spec fn dec_val_char(c: char) -> int {
    ((c as u32) as int) - 48
}

/// The decimal digit with value `n`.
pub open spec fn dec_digit(n: int) -> char
    recommends
        0 <= n < 10,
{
    hex_digit(n)
}

/// The canonical decimal text of `n`: plain digits, no sign, no leading zero.
pub open spec fn dec_rep(n: nat) -> Seq<char>
    decreases n,
{
    if n < 10 {
        seq![dec_digit(n as int)]
    } else {
        dec_rep((n / 10) as nat) + seq![dec_digit((n % 10) as int)]
    }
}

/// The numeric value of a digit string.
pub open spec fn dec_val(s: Seq<char>) -> int
    decreases s.len(),
{
    if s.len() == 0 {
        0
    } else {
        dec_val(s.drop_last()) * 10 + dec_val_char(s.last())
    }
}

/// True of every digit string that `dec_rep` can produce: nonempty, digits
/// only, and no leading zero.
pub open spec fn canonical_dec(s: Seq<char>) -> bool {
    &&& s.len() > 0
    &&& forall|i: int| 0 <= i < s.len() ==> is_dec_digit(#[trigger] s[i])
    &&& (s.len() == 1 || s[0] != '0')
}

/// A decimal digit holds the value it was built from; only the digit of zero
/// is the character zero.
proof fn lemma_dec_digit(n: int)
    requires
        0 <= n < 10,
    ensures
        is_dec_digit(dec_digit(n)),
        dec_val_char(dec_digit(n)) == n,
        n >= 1 ==> dec_digit(n) != '0',
{
}

/// A decimal digit character carries a value below ten, and the digit of
/// that value is the character itself.
proof fn lemma_dec_char(d: char)
    requires
        is_dec_digit(d),
    ensures
        0 <= dec_val_char(d) < 10,
        dec_digit(dec_val_char(d)) == d,
{
    assert(((d as u32) as char) == d);
}

/// A one-digit string reads as the value of its digit.
proof fn lemma_dec_val_singleton(d: char)
    ensures
        dec_val(seq![d]) == dec_val_char(d),
{
    assert(seq![d].drop_last() =~= Seq::<char>::empty());
    assert(dec_val(Seq::<char>::empty()) == 0);
    assert(seq![d].last() == d);
}

/// The canonical decimal text of a number is canonical, reads back as that
/// number, and starts with a nonzero digit whenever the number is nonzero.
pub proof fn lemma_dec_rep_canonical(n: nat)
    ensures
        canonical_dec(dec_rep(n)),
        dec_val(dec_rep(n)) == n,
        n >= 1 ==> dec_rep(n)[0] != '0',
    decreases n,
{
    if n < 10 {
        lemma_dec_digit(n as int);
        lemma_dec_val_singleton(dec_digit(n as int));
    } else {
        lemma_dec_rep_canonical((n / 10) as nat);
        lemma_dec_digit((n % 10) as int);
        let a = dec_rep((n / 10) as nat);
        let s = dec_rep(n);
        assert(s == a + seq![dec_digit((n % 10) as int)]);
        assert(forall|i: int|
            0 <= i < s.len() ==> is_dec_digit(#[trigger] s[i]) && (i < a.len() ==> s[i] == a[i]));
        assert(s.drop_last() =~= a);
        assert(dec_val(s) == dec_val(a) * 10 + (n % 10));
    }
}

/// Digit strings read as nonnegative values; without a leading zero the
/// value is at least one, and at least ten from two digits up.
proof fn lemma_dec_val_bounds(s: Seq<char>)
    requires
        forall|i: int| 0 <= i < s.len() ==> is_dec_digit(#[trigger] s[i]),
    ensures
        dec_val(s) >= 0,
        s.len() >= 1 && s[0] != '0' ==> dec_val(s) >= 1,
        s.len() >= 2 && s[0] != '0' ==> dec_val(s) >= 10,
    decreases s.len(),
{
    if s.len() == 0 {
    } else {
        let a = s.drop_last();
        lemma_dec_val_bounds(a);
        lemma_dec_char(s.last());
        if s.len() == 1 && s[0] != '0' {
            assert(dec_val_char(s[0]) >= 1) by {
                assert(((s[0] as u32) as char) == s[0]);
            }
        }
    }
}

/// A canonical digit string is the canonical text of its own value.
pub proof fn lemma_canonical_dec_rep(s: Seq<char>)
    requires
        canonical_dec(s),
    ensures
        dec_val(s) >= 0,
        dec_rep(dec_val(s) as nat) == s,
    decreases s.len(),
{
    lemma_dec_val_bounds(s);
    if s.len() == 1 {
        lemma_dec_char(s[0]);
        assert(s =~= seq![s[0]]);
        lemma_dec_val_singleton(s[0]);
        assert(dec_val(s) == dec_val_char(s[0]));
        assert(dec_rep(dec_val(s) as nat) =~= s);
    } else {
        let a = s.drop_last();
        let d = s.last();
        assert(canonical_dec(a));
        lemma_canonical_dec_rep(a);
        lemma_dec_val_bounds(a);
        lemma_dec_char(d);
        let v = dec_val(s);
        assert(v == dec_val(a) * 10 + dec_val_char(d));
        assert(v >= 10);
        assert(v / 10 == dec_val(a) && v % 10 == dec_val_char(d));
        assert(dec_rep(v as nat) == dec_rep(dec_val(a) as nat) + seq![dec_digit((v % 10) as int)]);
        assert(dec_rep(v as nat) =~= s);
    }
}

/// Reading a digit string left to right never overshoots: the value of a
/// prefix is bounded by the value of the whole.
pub proof fn lemma_dec_val_prefix(s: Seq<char>, i: int)
    requires
        forall|j: int| 0 <= j < s.len() ==> is_dec_digit(#[trigger] s[j]),
        0 <= i <= s.len(),
    ensures
        dec_val(s.take(i)) <= dec_val(s),
    decreases s.len(),
{
    lemma_dec_val_bounds(s);
    if i == s.len() {
        assert(s.take(i) =~= s);
    } else {
        let a = s.drop_last();
        lemma_dec_val_bounds(a);
        lemma_dec_char(s.last());
        lemma_dec_val_prefix(a, i);
        assert(s.take(i) =~= a.take(i));
        assert(dec_val(s) == dec_val(a) * 10 + dec_val_char(s.last()));
        assert(dec_val(a) * 10 >= dec_val(a));
    }
}

// ------------------------------------------------------------------
// Values the envelope can carry on the wire
// ------------------------------------------------------------------

/// A value with exactly one canonical JSON text: an encoder that appends that
/// text, and a decoder that accepts the canonical texts and nothing else.
/// The envelope's payloads and codes implement this; it plays the role a
/// reflection-based serializer plays for the host framework.
pub trait WireData: DeepView + Sized {
    /// The canonical JSON text of the value.
    spec fn wire(&self) -> Seq<char>;

    /// No two distinct abstract values share a wire text.
    proof fn lemma_wire_injective(a: &Self, b: &Self)
        requires
            a.wire() == b.wire(),
        ensures
            a.deep_view() == b.deep_view(),
    ;

    /// Appends the canonical JSON text of the value.
    fn encode(&self, out: &mut Vec<char>)
        ensures
            final(out)@ == old(out)@ + self.wire(),
    ;

    /// Reads a value back from exactly its canonical JSON text; any other
    /// input reads as nothing.
    fn decode(s: &[char]) -> (r: Option<Self>)
        ensures
            r matches Some(x) ==> x.wire() == s@,
            r is None ==> forall|x: Self| (#[trigger] x.wire()) != s@,
    ;
}

/// The canonical JSON text of the unit payload: the literal `null`.
pub open spec fn null_wire() -> Seq<char> {
    seq!['n', 'u', 'l', 'l']
}

impl WireData for () {
    open spec fn wire(&self) -> Seq<char> {
        null_wire()
    }

    proof fn lemma_wire_injective(a: &Self, b: &Self) {
    }

    fn encode(&self, out: &mut Vec<char>) {
        out.push('n');
        out.push('u');
        out.push('l');
        out.push('l');
        proof {
            assert(out@ =~= old(out)@ + null_wire());
        }
    }

    fn decode(s: &[char]) -> (r: Option<Self>) {
        if s.len() == 4 && *slice_index_get(s, 0) == 'n' && *slice_index_get(s, 1) == 'u'
            && *slice_index_get(s, 2) == 'l' && *slice_index_get(s, 3) == 'l' {
            proof {
                assert(s@ =~= null_wire());
            }
            Some(())
        } else {
            proof {
                assert(forall|x: ()| (#[trigger] x.wire()) == null_wire());
                if s@ == null_wire() {
                    assert(s@.len() == 4 && s@[0] == 'n' && s@[1] == 'u' && s@[2] == 'l' && s@[3]
                        == 'l');
                }
            }
            None
        }
    }
}

/// The decimal digit character with value `n`.
fn dec_digit_exec(n: u8) -> (c: char)
    requires
        n < 10,
    ensures
        c == dec_digit(n as int),
{
    if n == 0 {
        '0'
    } else if n == 1 {
        '1'
    } else if n == 2 {
        '2'
    } else if n == 3 {
        '3'
    } else if n == 4 {
        '4'
    } else if n == 5 {
        '5'
    } else if n == 6 {
        '6'
    } else if n == 7 {
        '7'
    } else if n == 8 {
        '8'
    } else {
        '9'
    }
}

/// Appends the canonical decimal text of `n`.
fn encode_u32_digits(n: u32, out: &mut Vec<char>)
    ensures
        final(out)@ == old(out)@ + dec_rep(n as nat),
    decreases n,
{
    if n < 10 {
        out.push(dec_digit_exec(n as u8));
        proof {
            assert(out@ =~= old(out)@ + dec_rep(n as nat));
        }
    } else {
        encode_u32_digits(n / 10, out);
        out.push(dec_digit_exec((n % 10) as u8));
        proof {
            assert(out@ =~= old(out)@ + dec_rep(n as nat));
        }
    }
}

impl WireData for u32 {
    open spec fn wire(&self) -> Seq<char> {
        dec_rep(*self as nat)
    }

    proof fn lemma_wire_injective(a: &Self, b: &Self) {
        lemma_dec_rep_canonical(*a as nat);
        lemma_dec_rep_canonical(*b as nat);
    }

    fn encode(&self, out: &mut Vec<char>) {
        encode_u32_digits(*self, out);
    }

    fn decode(s: &[char]) -> (r: Option<Self>) {
        proof {
            lemma_dec_rep_canonical(0nat);
        }
        if s.len() == 0 {
            proof {
                assert forall|x: u32| (#[trigger] x.wire()) != s@ by {
                    lemma_dec_rep_canonical(x as nat);
                }
            }
            return None;
        }
        if s.len() >= 2 && *slice_index_get(s, 0) == '0' {
            proof {
                assert forall|x: u32| (#[trigger] x.wire()) != s@ by {
                    lemma_dec_rep_canonical(x as nat);
                    if x.wire() == s@ {
                        assert(s@[0] != '0' || s@.len() == 1);
                    }
                }
            }
            return None;
        }
        let mut i: usize = 0;
        let mut acc: u64 = 0;
        while i < s.len()
            invariant
                0 <= i <= s@.len(),
                s@.len() >= 1,
                s@.len() >= 2 ==> s@[0] != '0',
                forall|j: int| 0 <= j < i ==> is_dec_digit(#[trigger] s@[j]),
                acc == dec_val(s@.take(i as int)),
                acc <= u32::MAX,
            decreases s@.len() - i,
        {
            let c = *slice_index_get(s, i);
            let v = c as u32;
            if !(48 <= v && v <= 57) {
                proof {
                    assert(!is_dec_digit(s@[i as int]));
                    assert forall|x: u32| (#[trigger] x.wire()) != s@ by {
                        lemma_dec_rep_canonical(x as nat);
                        if x.wire() == s@ {
                            assert(is_dec_digit(s@[i as int]));
                        }
                    }
                }
                return None;
            }
            proof {
                assert(is_dec_digit(s@[i as int]));
                assert(s@.take(i + 1) =~= s@.take(i as int) + seq![s@[i as int]]);
                assert((s@.take(i as int) + seq![s@[i as int]]).drop_last() =~= s@.take(i as int));
                assert(dec_val(s@.take(i + 1)) == dec_val(s@.take(i as int)) * 10 + dec_val_char(
                    s@[i as int],
                ));
            }
            acc = acc * 10 + ((v - 48) as u64);
            i = i + 1;
            if acc > (u32::MAX as u64) {
                proof {
                    assert forall|x: u32| (#[trigger] x.wire()) != s@ by {
                        lemma_dec_rep_canonical(x as nat);
                        if x.wire() == s@ {
                            lemma_dec_val_prefix(s@, i as int);
                            assert(dec_val(s@) == x as int);
                        }
                    }
                }
                return None;
            }
        }
        proof {
            assert(s@.take(i as int) =~= s@);
            assert(canonical_dec(s@));
            lemma_canonical_dec_rep(s@);
        }
        Some(acc as u32)
    }
}

// ------------------------------------------------------------------
// Strings on the wire
// ------------------------------------------------------------------

/// Relies on std's `FromIterator<char> for String`: collecting characters
/// yields the string of exactly those characters, in order.
#[verifier::external_body]
pub fn chars_to_string(v: &Vec<char>) -> (r: String)
    ensures
        r@ == v@,
{
    v.iter().collect()
}

/// The characters of a string slice, in order.
pub fn str_to_chars(s: &str) -> (r: Vec<char>)
    ensures
        r@ == s@,
{
    let n = s.unicode_len();
    let mut r: Vec<char> = Vec::new();
    let mut i: usize = 0;
    while i < n
        invariant
            0 <= i <= n,
            n == s@.len(),
            r@ == s@.take(i as int),
        decreases n - i,
    {
        let c = s.get_char(i);
        r.push(c);
        proof {
            assert(r@ =~= s@.take(i as int + 1));
        }
        i = i + 1;
    }
    proof {
        assert(r@ =~= s@);
    }
    r
}

/// Escaping distributes over concatenation.
proof fn lemma_escaped_concat(a: Seq<char>, b: Seq<char>)
    ensures
        escaped(a + b) == escaped(a) + escaped(b),
    decreases a.len(),
{
    if a.len() == 0 {
        assert(a + b =~= b);
        assert(escaped(a) + escaped(b) =~= escaped(b));
    } else {
        assert((a + b).drop_first() =~= a.drop_first() + b);
        assert((a + b)[0] == a[0]);
        lemma_escaped_concat(a.drop_first(), b);
        assert(escaped(a + b) =~= escaped(a) + escaped(b));
    }
}

/// The escape of one character is that character's escape.
proof fn lemma_escaped_singleton(c: char)
    ensures
        escaped(seq![c]) == escaped_char(c),
{
    assert(seq![c].drop_first() =~= Seq::<char>::empty());
    assert(escaped(Seq::<char>::empty()) =~= Seq::<char>::empty());
    assert(escaped(seq![c]) =~= escaped_char(c) + Seq::<char>::empty());
    assert(escaped_char(c) + Seq::<char>::empty() =~= escaped_char(c));
}

/// The lowercase hexadecimal digit character with value `n`.
fn hex_digit_exec(n: u32) -> (c: char)
    requires
        n < 16,
    ensures
        c == hex_digit(n as int),
{
    if n == 0 {
        '0'
    } else if n == 1 {
        '1'
    } else if n == 2 {
        '2'
    } else if n == 3 {
        '3'
    } else if n == 4 {
        '4'
    } else if n == 5 {
        '5'
    } else if n == 6 {
        '6'
    } else if n == 7 {
        '7'
    } else if n == 8 {
        '8'
    } else if n == 9 {
        '9'
    } else if n == 10 {
        'a'
    } else if n == 11 {
        'b'
    } else if n == 12 {
        'c'
    } else if n == 13 {
        'd'
    } else if n == 14 {
        'e'
    } else {
        'f'
    }
}

/// The value of a lowercase hexadecimal digit character; 16 for any other
/// character.
fn hex_val_exec(c: char) -> (r: u32)
    ensures
        is_hex_digit(c) ==> r == hex_val(c) && r < 16,
        !is_hex_digit(c) ==> r == 16,
{
    let v = c as u32;
    proof {
        assert(((c as u32) as char) == c);
    }
    if 48 <= v && v <= 57 {
        v - 48
    } else if 97 <= v && v <= 102 {
        v - 87
    } else {
        16
    }
}

/// Appends the canonical escape of one character.
fn push_escaped_char(c: char, out: &mut Vec<char>)
    ensures
        final(out)@ == old(out)@ + escaped_char(c),
{
    if c == '"' {
        out.push('\\');
        out.push('"');
        proof {
            assert(out@ =~= old(out)@ + escaped_char(c));
        }
    } else if c == '\\' {
        out.push('\\');
        out.push('\\');
        proof {
            assert(out@ =~= old(out)@ + escaped_char(c));
        }
    } else if c == '\n' {
        out.push('\\');
        out.push('n');
        proof {
            assert(out@ =~= old(out)@ + escaped_char(c));
        }
    } else if c == '\r' {
        out.push('\\');
        out.push('r');
        proof {
            assert(out@ =~= old(out)@ + escaped_char(c));
        }
    } else if c == '\t' {
        out.push('\\');
        out.push('t');
        proof {
            assert(out@ =~= old(out)@ + escaped_char(c));
        }
    } else {
        let v = c as u32;
        if v < 32 {
            out.push('\\');
            out.push('u');
            out.push('0');
            out.push('0');
            out.push(hex_digit_exec(v / 16));
            out.push(hex_digit_exec(v % 16));
            proof {
                assert(out@ =~= old(out)@ + escaped_char(c));
            }
        } else {
            out.push(c);
            proof {
                assert(plain_char(c));
                assert(out@ =~= old(out)@ + escaped_char(c));
            }
        }
    }
}

/// What a partial scan still owes: scanning the whole input from here on
/// yields whatever the remaining suffix yields, prefixed by what was already
/// decoded.
spec fn scan_cont(orig: Seq<char>, acc: Seq<char>, suf: Seq<char>) -> bool {
    match scan_quoted(suf) {
        Some(p) => scan_quoted(orig) == Some((acc + p.0, p.1)),
        None => scan_quoted(orig) is None,
    }
}

/// Scans the body of a quoted string inside `s`, from `start` up to the
/// closing quote: on success yields the decoded characters and the index
/// just past that quote.
pub(crate) fn scan_quoted_exec(s: &[char], start: usize) -> (r: Option<(Vec<char>, usize)>)
    requires
        start <= s@.len(),
    ensures
        r matches Some(p) ==> start < p.1 <= s@.len() && scan_quoted(s@.skip(start as int)) == Some(
            (p.0@, s@.skip(p.1 as int)),
        ),
        r is None ==> scan_quoted(s@.skip(start as int)) is None,
{
    let mut i = start;
    let mut out: Vec<char> = Vec::new();
    loop
        invariant
            start <= i <= s@.len(),
            scan_cont(s@.skip(start as int), out@, s@.skip(i as int)),
        decreases s@.len() - i,
    {
        let ghost suf = s@.skip(i as int);
        if i == s.len() {
            proof {
                assert(suf =~= Seq::<char>::empty());
            }
            return None;
        }
        proof {
            assert(suf.len() == s@.len() - i);
            assert(forall|k: int| 0 <= k < suf.len() ==> suf[k] == s@[i + k]);
        }
        let c = *slice_index_get(s, i);
        if c == '"' {
            proof {
                assert(suf.drop_first() =~= s@.skip(i as int + 1));
                assert(scan_quoted(suf) == Some((Seq::<char>::empty(), s@.skip(i as int + 1))));
                assert(out@ + Seq::<char>::empty() =~= out@);
            }
            return Some((out, i + 1));
        }
        let step: (char, usize) = if c == '\\' {
            if s.len() - i < 2 {
                proof {
                    assert(scan_step(suf) is None);
                }
                return None;
            }
            let e = *slice_index_get(s, i + 1);
            if e == '"' {
                ('"', 2)
            } else if e == '\\' {
                ('\\', 2)
            } else if e == 'n' {
                ('\n', 2)
            } else if e == 'r' {
                ('\r', 2)
            } else if e == 't' {
                ('\t', 2)
            } else if e == 'u' {
                if s.len() - i < 6 {
                    proof {
                        assert(scan_step(suf) is None);
                    }
                    return None;
                }
                let d2 = *slice_index_get(s, i + 2);
                let d3 = *slice_index_get(s, i + 3);
                let v4 = hex_val_exec(*slice_index_get(s, i + 4));
                let v5 = hex_val_exec(*slice_index_get(s, i + 5));
                if d2 == '0' && d3 == '0' && v4 < 16 && v5 < 16 {
                    let v = v4 * 16 + v5;
                    if v < 32 && v != 9 && v != 10 && v != 13 {
                        (((v as u8) as char), 6)
                    } else {
                        proof {
                            assert(scan_step(suf) is None);
                        }
                        return None;
                    }
                } else {
                    proof {
                        assert(scan_step(suf) is None);
                    }
                    return None;
                }
            } else {
                proof {
                    assert(scan_step(suf) is None);
                }
                return None;
            }
        } else if (c as u32) >= 32 {
            (c, 1)
        } else {
            proof {
                assert(!plain_char(suf[0]));
                assert(scan_step(suf) is None);
            }
            return None;
        };
        let (ch, n) = step;
        proof {
            assert(scan_step(suf) == Some((ch, n as int)));
        }
        let ghost acc0 = out@;
        out.push(ch);
        i = i + n;
        proof {
            assert(suf.skip(n as int) =~= s@.skip(i as int));
            assert(suf[0] != '"');
            match scan_quoted(s@.skip(i as int)) {
                Some(p) => {
                    assert(scan_quoted(suf) == Some((seq![ch] + p.0, p.1)));
                    assert(acc0 + (seq![ch] + p.0) =~= out@ + p.0);
                },
                None => {
                    assert(scan_quoted(suf) is None);
                },
            }
        }
    }
}

impl WireData for String {
    open spec fn wire(&self) -> Seq<char> {
        quoted(self@)
    }

    proof fn lemma_wire_injective(a: &Self, b: &Self) {
        lemma_scan_escaped(a@, Seq::empty());
        lemma_scan_escaped(b@, Seq::empty());
        assert(quoted(a@).drop_first() =~= escaped(a@) + seq!['"'] + Seq::<char>::empty());
        assert(quoted(b@).drop_first() =~= escaped(b@) + seq!['"'] + Seq::<char>::empty());
    }

    fn encode(&self, out: &mut Vec<char>) {
        let ghost pre = out@;
        out.push('"');
        let n = self.as_str().unicode_len();
        let mut i: usize = 0;
        while i < n
            invariant
                0 <= i <= n,
                n == self@.len(),
                out@ == pre + seq!['"'] + escaped(self@.take(i as int)),
            decreases n - i,
        {
            let c = self.as_str().get_char(i);
            push_escaped_char(c, out);
            proof {
                lemma_escaped_concat(self@.take(i as int), seq![self@[i as int]]);
                lemma_escaped_singleton(self@[i as int]);
                assert(self@.take(i as int + 1) =~= self@.take(i as int) + seq![self@[i as int]]);
                assert(out@ =~= pre + seq!['"'] + escaped(self@.take(i as int + 1)));
            }
            i = i + 1;
        }
        out.push('"');
        proof {
            assert(self@.take(n as int) =~= self@);
            assert(out@ =~= pre + quoted(self@));
        }
    }

    fn decode(s: &[char]) -> (r: Option<Self>) {
        if s.len() == 0 || *slice_index_get(s, 0) != '"' {
            proof {
                assert forall|x: String| (#[trigger] x.wire()) != s@ by {
                    assert(x.wire()[0] == '"');
                    assert(x.wire().len() >= 2);
                }
            }
            return None;
        }
        match scan_quoted_exec(s, 1) {
            Some((body, end)) => {
                if end == s.len() {
                    let r = chars_to_string(&body);
                    proof {
                        assert(s@.skip(end as int) =~= Seq::<char>::empty());
                        lemma_scan_canonical(s@.skip(1), body@, s@.skip(end as int));
                        assert(s@ =~= seq!['"'] + s@.skip(1));
                        assert(s@ =~= quoted(body@));
                    }
                    Some(r)
                } else {
                    proof {
                        assert forall|x: String| (#[trigger] x.wire()) != s@ by {
                            if x.wire() == s@ {
                                lemma_scan_escaped(x@, Seq::empty());
                                assert(s@.skip(1) =~= escaped(x@) + seq!['"']
                                    + Seq::<char>::empty());
                                assert(s@.skip(end as int).len() == 0);
                                assert(false);
                            }
                        }
                    }
                    None
                }
            },
            None => {
                proof {
                    assert forall|x: String| (#[trigger] x.wire()) != s@ by {
                        if x.wire() == s@ {
                            lemma_scan_escaped(x@, Seq::empty());
                            assert(s@.skip(1) =~= escaped(x@) + seq!['"'] + Seq::<char>::empty());
                            assert(false);
                        }
                    }
                }
                None
            },
        }
    }
}

} // verus!
