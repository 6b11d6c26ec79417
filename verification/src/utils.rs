//! Conversions between Rust text and the NUL-terminated UTF-16 ("wide")
//! strings that the Windows API reads and writes.
use vstd::prelude::*;

verus! {

/// A Unicode scalar value: any code point but the surrogates.
pub open spec fn is_scalar_value(v: int) -> bool {
    (0 <= v < 0xD800) || (0xE000 <= v <= 0x10FFFF)
}

pub open spec fn is_high_surrogate(u: u16) -> bool {
    0xD800 <= u < 0xDC00
}

pub open spec fn is_low_surrogate(u: u16) -> bool {
    0xDC00 <= u < 0xE000
}

/// The code point that a high and a low surrogate stand for together.
pub open spec fn surrogate_pair_value(high: u16, low: u16) -> int {
    0x10000 + (high - 0xD800) * 0x400 + (low - 0xDC00)
}

/// The UTF-16 code units of one character: one unit in the basic plane,
/// a high and a low surrogate above it.
pub open spec fn utf16_of_char(c: char) -> Seq<u16> {
    let v = c as int;
    if v < 0x10000 {
        seq![v as u16]
    } else {
        seq![(0xD800 + (v - 0x10000) / 0x400) as u16, (0xDC00 + (v - 0x10000) % 0x400) as u16]
    }
}

/// UTF-16 encoding of a character sequence.
pub open spec fn utf16_encode(s: Seq<char>) -> Seq<u16>
    decreases s.len(),
{
    if s.len() == 0 {
        seq![]
    } else {
        utf16_of_char(s[0]) + utf16_encode(s.drop_first())
    }
}

/// UTF-16 decoding; `None` where a surrogate is unpaired.
pub open spec fn utf16_decode(w: Seq<u16>) -> Option<Seq<char>>
    decreases w.len(),
{
    if w.len() == 0 {
        Some(seq![])
    } else if is_high_surrogate(w[0]) {
        if w.len() >= 2 && is_low_surrogate(w[1]) {
            match utf16_decode(w.skip(2)) {
                Some(rest) => Some(seq![surrogate_pair_value(w[0], w[1]) as char] + rest),
                None => None,
            }
        } else {
            None
        }
    } else if is_low_surrogate(w[0]) {
        None
    } else {
        match utf16_decode(w.drop_first()) {
            Some(rest) => Some(seq![w[0] as char] + rest),
            None => None,
        }
    }
}

/// Index of the first NUL unit of `w`, or its length where it holds none.
pub open spec fn nul_position(w: Seq<u16>) -> nat
    decreases w.len(),
{
    if w.len() == 0 {
        0
    } else if w[0] == 0 {
        0
    } else {
        1 + nul_position(w.drop_first())
    }
}

/// The units of `w` before its first NUL.
pub open spec fn until_nul(w: Seq<u16>) -> Seq<u16> {
    w.take(nul_position(w) as int)
}

pub open spec fn has_no_nul(w: Seq<u16>) -> bool {
    forall|i: int| 0 <= i < w.len() ==> w[i] != 0
}

/// `nul_position` is the one index before which no unit is NUL and at which
/// one is, or the end.
pub proof fn lemma_nul_position(w: Seq<u16>, i: int)
    ensures
        nul_position(w) <= w.len(),
        forall|j: int| 0 <= j < nul_position(w) ==> w[j] != 0,
        nul_position(w) < w.len() ==> w[nul_position(w) as int] == 0,
        (0 <= i <= w.len() && (forall|j: int| 0 <= j < i ==> w[j] != 0) && (i == w.len() || w[i]
            == 0)) ==> i == nul_position(w),
    decreases w.len(),
{
    if w.len() > 0 && w[0] != 0 {
        let t = w.drop_first();
        lemma_nul_position(t, i - 1);
        assert forall|j: int| 0 <= j < nul_position(w) implies w[j] != 0 by {
            if j > 0 {
                assert(w[j] == t[j - 1]);
            }
        }
        if 0 <= i <= w.len() && (forall|j: int| 0 <= j < i ==> w[j] != 0) && (i == w.len() || w[i]
            == 0) {
            assert(i >= 1);
            assert forall|j: int| 0 <= j < i - 1 implies t[j] != 0 by {
                assert(t[j] == w[j + 1]);
            }
        }
    }
}

/// Encoding distributes over concatenation.
pub proof fn lemma_encode_append(a: Seq<char>, b: Seq<char>)
    ensures
        utf16_encode(a + b) == utf16_encode(a) + utf16_encode(b),
    decreases a.len(),
{
    if a.len() == 0 {
        assert(a + b =~= b);
    } else {
        assert((a + b).drop_first() =~= a.drop_first() + b);
        lemma_encode_append(a.drop_first(), b);
        assert(utf16_encode(a) + utf16_encode(b) =~= utf16_of_char(a[0]) + (utf16_encode(
            a.drop_first(),
        ) + utf16_encode(b)));
    }
}

proof fn lemma_encode_single(c: char)
    ensures
        utf16_encode(seq![c]) == utf16_of_char(c),
{
    let e = Seq::<char>::empty();
    assert(seq![c].drop_first() =~= e);
    assert(utf16_encode(e) =~= Seq::<u16>::empty());
    assert(utf16_of_char(c) + Seq::<u16>::empty() =~= utf16_of_char(c));
}

/// The units of one character, and what decoding them gives back.
proof fn lemma_char_units(c: char)
    ensures
        (c as int) < 0x10000 ==> utf16_of_char(c).len() == 1 && !is_high_surrogate(
            utf16_of_char(c)[0],
        ) && !is_low_surrogate(utf16_of_char(c)[0]) && (utf16_of_char(c)[0] as char) == c,
        (c as int) >= 0x10000 ==> utf16_of_char(c).len() == 2 && is_high_surrogate(
            utf16_of_char(c)[0],
        ) && is_low_surrogate(utf16_of_char(c)[1]) && (surrogate_pair_value(
            utf16_of_char(c)[0],
            utf16_of_char(c)[1],
        ) as char) == c,
        (c as int) != 0 ==> forall|i: int|
            0 <= i < utf16_of_char(c).len() ==> utf16_of_char(c)[i] != 0,
{
    let v = c as int;
    assert(is_scalar_value(v));
    if v >= 0x10000 {
        let w = v - 0x10000;
        assert(0 <= w < 0x100000);
        assert(w == (w / 0x400) * 0x400 + w % 0x400);
        assert(0 <= w / 0x400 < 0x400);
    }
}

/// Decoding the encoding of any text gives the text back.
pub proof fn law_decoding_inverts_encoding(s: Seq<char>)
    ensures
        utf16_decode(utf16_encode(s)) == Some(s),
    decreases s.len(),
{
    if s.len() > 0 {
        let c = s[0];
        let rest = s.drop_first();
        let u = utf16_of_char(c);
        let e = utf16_encode(s);
        law_decoding_inverts_encoding(rest);
        lemma_char_units(c);
        assert(e == u + utf16_encode(rest));
        if (c as int) < 0x10000 {
            assert(e.drop_first() =~= utf16_encode(rest));
            assert(e[0] == u[0]);
            assert(seq![c] + rest =~= s);
        } else {
            assert(e.skip(2) =~= utf16_encode(rest));
            assert(e[0] == u[0] && e[1] == u[1]);
            assert(seq![c] + rest =~= s);
        }
    } else {
        assert(utf16_encode(s) =~= Seq::<u16>::empty());
    }
}

/// Decoding is exact: a sequence that decodes is the encoding of what it
/// decodes to.
pub proof fn law_decoding_is_exact(w: Seq<u16>)
    ensures
        utf16_decode(w) matches Some(s) ==> utf16_encode(s) == w,
    decreases w.len(),
{
    if w.len() > 0 {
        if is_high_surrogate(w[0]) {
            if w.len() >= 2 && is_low_surrogate(w[1]) {
                law_decoding_is_exact(w.skip(2));
                if let Some(rest) = utf16_decode(w.skip(2)) {
                    let v = surrogate_pair_value(w[0], w[1]);
                    let c = v as char;
                    let s = seq![c] + rest;
                    assert(0x10000 <= v <= 0x10FFFF);
                    assert(c as int == v);
                    let x = v - 0x10000;
                    assert(x == (w[0] - 0xD800) * 0x400 + (w[1] - 0xDC00));
                    assert(x / 0x400 == w[0] - 0xD800);
                    assert(x % 0x400 == w[1] - 0xDC00);
                    assert(s.drop_first() =~= rest);
                    assert(utf16_of_char(c) =~= seq![w[0], w[1]]);
                    assert(utf16_encode(s) =~= w);
                }
            }
        } else if !is_low_surrogate(w[0]) {
            law_decoding_is_exact(w.drop_first());
            if let Some(rest) = utf16_decode(w.drop_first()) {
                let c = w[0] as char;
                let s = seq![c] + rest;
                assert(c as int == w[0] as int);
                assert(s.drop_first() =~= rest);
                assert(utf16_of_char(c) =~= seq![w[0]]);
                assert(utf16_encode(s) =~= w);
            }
        }
    } else {
        if let Some(s) = utf16_decode(w) {
            assert(s =~= Seq::<char>::empty());
        }
    }
}

/// The encoding of text without a NUL character holds no NUL unit.
pub proof fn lemma_encode_no_nul(s: Seq<char>)
    requires
        !s.contains('\0'),
    ensures
        has_no_nul(utf16_encode(s)),
    decreases s.len(),
{
    if s.len() > 0 {
        let rest = s.drop_first();
        assert(s[0] != '\0');
        assert(s[0] as int != 0);
        lemma_char_units(s[0]);
        assert forall|c: char| rest.contains(c) implies s.contains(c) by {
            let k = choose|k: int| 0 <= k < rest.len() && rest[k] == c;
            assert(s[k + 1] == c);
        }
        lemma_encode_no_nul(rest);
        let u = utf16_of_char(s[0]);
        let e = utf16_encode(s);
        assert forall|i: int| 0 <= i < e.len() implies e[i] != 0 by {
            if i >= u.len() {
                assert(e[i] == utf16_encode(rest)[i - u.len()]);
            }
        }
    }
}

/// Cutting at the NUL of a terminated NUL-free sequence gives it back.
pub proof fn lemma_until_nul_terminated(w: Seq<u16>)
    requires
        has_no_nul(w),
    ensures
        until_nul(w.push(0)) == w,
{
    let t = w.push(0);
    lemma_nul_position(t, w.len() as int);
    assert(until_nul(t) =~= w);
}

/// What `until_nul` leaves holds no NUL, so cutting again changes nothing.
pub proof fn lemma_until_nul_no_nul(w: Seq<u16>)
    ensures
        has_no_nul(until_nul(w)),
        until_nul(until_nul(w)) == until_nul(w),
{
    lemma_nul_position(w, 0);
    let u = until_nul(w);
    lemma_nul_position(u, u.len() as int);
    assert(until_nul(u) =~= u);
}

/// Round trip through the wide form: text without a NUL character, turned
/// into a terminated wide string and read back up to its NUL, decodes to
/// itself.
pub proof fn law_wide_round_trip(s: Seq<char>)
    requires
        !s.contains('\0'),
    ensures
        utf16_decode(until_nul(utf16_encode(s).push(0))) == Some(s),
{
    lemma_encode_no_nul(s);
    lemma_until_nul_terminated(utf16_encode(s));
    law_decoding_inverts_encoding(s);
}

/// Writing a wide string out in its terminated form and reading it back
/// gives it unchanged: `from_wide(&x.to_wide())` is `x` for every `x` that
/// `from_wide` gives.
pub proof fn law_wide_string_round_trip(w: Seq<u16>)
    ensures
        until_nul(until_nul(w).push(0)) == until_nul(w),
{
    lemma_until_nul_no_nul(w);
    lemma_until_nul_terminated(until_nul(w));
}

/// What a character becomes in UTF-16: below U+10000 the one unit of its
/// value; above, a high surrogate (D800 to DBFF) and a low surrogate (DC00 to
/// DFFF) whose offsets, 0x400 times the first plus the second, add up to the
/// value less 0x10000.
pub proof fn law_utf16_units_of_char(c: char)
    ensures
        (c as int) < 0x10000 ==> utf16_of_char(c).len() == 1 && utf16_of_char(c)[0] as int
            == c as int,
        (c as int) >= 0x10000 ==> utf16_of_char(c).len() == 2 && 0xD800 <= utf16_of_char(c)[0]
            < 0xDC00 && 0xDC00 <= utf16_of_char(c)[1] < 0xE000 && 0x10000 + (utf16_of_char(c)[0]
            - 0xD800) * 0x400 + (utf16_of_char(c)[1] - 0xDC00) == c as int,
{
    lemma_char_units(c);
}

/// `until_nul` keeps exactly the units before the first NUL: they are the
/// first units of the buffer, none of them is NUL, and what follows them is a
/// NUL or the end of the buffer.
pub proof fn law_until_nul_cuts_at_first_nul(w: Seq<u16>)
    ensures
        until_nul(w).len() <= w.len(),
        forall|j: int| 0 <= j < until_nul(w).len() ==> #[trigger] until_nul(w)[j] == w[j] && w[j] != 0,
        until_nul(w).len() == w.len() || w[until_nul(w).len() as int] == 0,
{
    lemma_nul_position(w, 0);
}

/// Appends the UTF-16 units of `c` to `out`.
fn push_utf16(out: &mut Vec<u16>, c: char)
    ensures
        final(out)@ == old(out)@ + utf16_of_char(c),
{
    let v = c as u32;
    proof {
        assert(is_scalar_value(v as int));
    }
    if v < 0x10000 {
        out.push(v as u16);
        assert(out@ =~= old(out)@ + utf16_of_char(c));
    } else {
        let w = v - 0x10000;
        out.push((0xD800 + w / 0x400) as u16);
        out.push((0xDC00 + w % 0x400) as u16);
        assert(out@ =~= old(out)@ + utf16_of_char(c));
    }
}

/// Strings that can be handed to the Windows API as NUL-terminated UTF-16.
pub trait ToWide {
    fn to_wide(&self) -> Vec<u16>;
}

impl ToWide for str {
    /// The UTF-16 encoding of the text, followed by a NUL unit.
    fn to_wide(&self) -> (wide: Vec<u16>)
        ensures
            wide@ == utf16_encode(self@).push(0),
    {
        broadcast use vstd::string::group_string_axioms;

        let mut out: Vec<u16> = Vec::new();
        let ghost text = self@;
        for c in it: self.chars()
            invariant
                it.seq() == text,
                out@ == utf16_encode(text.take(it.index())),
        {
            proof {
                let i = it.index();
                assert(text.take(i + 1) =~= text.take(i) + seq![c]);
                lemma_encode_append(text.take(i), seq![c]);
                lemma_encode_single(c);
            }
            push_utf16(&mut out, c);
        }
        proof {
            assert(text.take(text.len() as int) =~= text);
        }
        out.push(0);
        out
    }
}

impl ToWide for String {
    /// The UTF-16 encoding of the text, followed by a NUL unit.
    fn to_wide(&self) -> (wide: Vec<u16>)
        ensures
            wide@ == utf16_encode(self@).push(0),
    {
        self.as_str().to_wide()
    }
}

/// Calls `char::from_u32`, which std documents to give the character of
/// that value where it is a Unicode scalar value and `None` elsewhere.
#[verifier::external_body]
fn char_from_u32(v: u32) -> (c: Option<char>)
    ensures
        c == (if is_scalar_value(v as int) {
            Some(v as char)
        } else {
            None
        }),
{
    char::from_u32(v)
}

/// Calls `String::push`, which std documents to append the character to
/// the end of the string.
#[verifier::external_body]
pub(crate) fn push_char(s: &mut String, c: char)
    ensures
        final(s)@ == old(s)@.push(c),
{
    s.push(c)
}

/// Text as the Windows API holds it: a sequence of UTF-16 code units that
/// need not be valid Unicode (unpaired surrogates are kept as they are).
#[derive(Debug)]
pub struct WideString {
    units: Vec<u16>,
}

impl View for WideString {
    type V = Seq<u16>;

    closed spec fn view(&self) -> Seq<u16> {
        self.units@
    }
}

/// Types that can be read from a NUL-terminated UTF-16 buffer.
pub trait FromWide: Sized {
    fn from_wide(wide: &[u16]) -> Self;
}

impl FromWide for WideString {
    /// The units of `wide` before its first NUL (all of them where there is
    /// none).
    fn from_wide(wide: &[u16]) -> (s: WideString)
        ensures
            s@ == until_nul(wide@),
    {
        let n = wide.len();
        let mut len: usize = 0;
        while len < n && wide[len] != 0
            invariant
                n == wide@.len(),
                len <= n,
                forall|j: int| 0 <= j < len ==> wide@[j] != 0,
            decreases n - len,
        {
            len = len + 1;
        }
        proof {
            lemma_nul_position(wide@, len as int);
        }
        let mut units: Vec<u16> = Vec::new();
        let mut i: usize = 0;
        while i < len
            invariant
                len == nul_position(wide@),
                len <= n == wide@.len(),
                i <= len,
                units@ == wide@.take(i as int),
            decreases len - i,
        {
            units.push(wide[i]);
            i = i + 1;
            proof {
                assert(units@ =~= wide@.take(i as int));
            }
        }
        WideString { units }
    }
}

impl ToWide for WideString {
    /// The units, followed by a NUL unit.
    fn to_wide(&self) -> (wide: Vec<u16>)
        ensures
            wide@ == self@.push(0),
    {
        let mut out: Vec<u16> = Vec::new();
        let n = self.units.len();
        let mut i: usize = 0;
        while i < n
            invariant
                n == self.units@.len(),
                i <= n,
                out@ == self.units@.take(i as int),
            decreases n - i,
        {
            out.push(self.units[i]);
            i = i + 1;
            proof {
                assert(out@ =~= self.units@.take(i as int));
            }
        }
        out.push(0);
        proof {
            assert(self.units@.take(n as int) =~= self.units@);
        }
        out
    }
}

impl WideString {
    /// The text, where the units are valid UTF-16; the string itself,
    /// unchanged, where a surrogate is unpaired.
    pub fn into_string(self) -> (r: Result<String, WideString>)
        ensures
            utf16_decode(self@) is Some <==> r is Ok,
            r matches Ok(s) ==> Some(s@) == utf16_decode(self@),
            r matches Err(w) ==> w@ == self@,
    {
        let n = self.units.len();
        let ghost w = self.units@;
        let mut text = String::new();
        let mut i: usize = 0;
        proof {
            assert(w.skip(0) =~= w);
            if let Some(all) = utf16_decode(w) {
                assert(text@ + all =~= all);
            }
        }
        while i < n
            invariant
                n == w.len(),
                w == self.units@,
                i <= n,
                utf16_decode(w) == (match utf16_decode(w.skip(i as int)) {
                    Some(rest) => Some(text@ + rest),
                    None => None::<Seq<char>>,
                }),
            decreases n - i,
        {
            let u = self.units[i];
            let ghost t = w.skip(i as int);
            proof {
                assert(t[0] == u);
            }
            if 0xD800 <= u && u < 0xDC00 {
                if i + 1 < n && 0xDC00 <= self.units[i + 1] && self.units[i + 1] < 0xE000 {
                    let low = self.units[i + 1];
                    let v: u32 = 0x10000 + ((u - 0xD800) as u32) * 0x400 + ((low - 0xDC00) as u32);
                    proof {
                        assert(t[1] == low);
                        assert(t.skip(2) =~= w.skip(i + 2));
                        assert(v as int == surrogate_pair_value(u, low));
                    }
                    match char_from_u32(v) {
                        Some(c) => {
                            proof {
                                let ghost before = text@;
                                if let Some(rest) = utf16_decode(w.skip(i + 2)) {
                                    assert(before + (seq![c] + rest) =~= before.push(c) + rest);
                                }
                            }
                            push_char(&mut text, c);
                        },
                        None => {
                            return Err(self);
                        },
                    }
                    i = i + 2;
                } else {
                    return Err(self);
                }
            } else if 0xDC00 <= u && u < 0xE000 {
                return Err(self);
            } else {
                match char_from_u32(u as u32) {
                    Some(c) => {
                        proof {
                            assert(t.drop_first() =~= w.skip(i + 1));
                            let ghost before = text@;
                            if let Some(rest) = utf16_decode(w.skip(i + 1)) {
                                assert(before + (seq![c] + rest) =~= before.push(c) + rest);
                            }
                        }
                        push_char(&mut text, c);
                    },
                    None => {
                        return Err(self);
                    },
                }
                i = i + 1;
            }
        }
        proof {
            assert(w.skip(n as int) =~= Seq::<u16>::empty());
            assert(text@ + Seq::<char>::empty() =~= text@);
        }
        Ok(text)
    }
}

/// The character of a decimal digit.
pub open spec fn digit_char(d: int) -> char {
    ((48 + d) as u8) as char
}

/// The decimal notation of `n`, without leading zeros.
pub open spec fn decimal(n: nat) -> Seq<char>
    decreases n,
{
    if n < 10 {
        seq![digit_char(n as int)]
    } else {
        decimal(n / 10).push(digit_char((n % 10) as int))
    }
}

/// The number that a run of decimal digits reads as.
pub open spec fn decimal_value(s: Seq<char>) -> int
    decreases s.len(),
{
    if s.len() == 0 {
        0
    } else {
        decimal_value(s.drop_last()) * 10 + (s.last() as int - '0' as int)
    }
}

/// The decimal notation of a number is made of digits `'0'` to `'9'`, has
/// no leading zero (but for zero itself, written `"0"`), and reads back as
/// the number.
pub proof fn law_decimal_reads_back(n: nat)
    ensures
        decimal(n).len() >= 1,
        forall|i: int| 0 <= i < decimal(n).len() ==> '0' <= #[trigger] decimal(n)[i] <= '9',
        decimal(n)[0] == '0' <==> n == 0,
        decimal_value(decimal(n)) == n,
    decreases n,
{
    if n >= 10 {
        let q = (n / 10) as nat;
        let r = (n % 10) as int;
        law_decimal_reads_back(q);
        let d = decimal(n);
        let c = digit_char(r);
        assert(c as int == 48 + r);
        assert(d == decimal(q).push(c));
        assert(d.drop_last() =~= decimal(q));
        assert(d[0] == decimal(q)[0]);
        assert forall|i: int| 0 <= i < d.len() implies '0' <= #[trigger] d[i] <= '9' by {
            if i < d.len() - 1 {
                assert(d[i] == decimal(q)[i]);
            }
        }
        assert(q * 10 + r == n);
        assert(d.last() == c);
        assert(decimal_value(d) == decimal_value(decimal(q)) * 10 + r);
    } else {
        let d = decimal(n);
        assert(d == seq![digit_char(n as int)]);
        assert(d.drop_last() =~= Seq::<char>::empty());
        assert(digit_char(n as int) as int == 48 + n);
        assert(decimal_value(Seq::<char>::empty()) == 0);
        assert(decimal_value(d) == n);
    }
}

/// Appends the decimal notation of `n` to `s`.
pub fn push_decimal(s: &mut String, n: u64)
    ensures
        final(s)@ == old(s)@ + decimal(n as nat),
    decreases n,
{
    if n >= 10 {
        push_decimal(s, n / 10);
    }
    let d = (n % 10) as u8;
    let c = (48u8 + d) as char;
    proof {
        assert(c == digit_char((n % 10) as int));
    }
    push_char(s, c);
    proof {
        if n >= 10 {
            assert(old(s)@ + decimal((n / 10) as nat) + seq![c] =~= old(s)@ + decimal(n as nat));
        } else {
            assert(old(s)@.push(c) =~= old(s)@ + decimal(n as nat));
        }
    }
}

} // verus!
