use vstd::prelude::*;

use vstd::utf8::{char_is_scalar, encode_scalar, encode_utf8};

verus! {

/// `String::push` appends one character at the end of the string, as its
/// documentation says ("Appends the given char to the end of this String").
pub assume_specification[ String::push ](string: &mut String, ch: char)
    ensures
        final(string)@ == old(string)@.push(ch),
;

// ---------------------------------------------------------------------------
// Character classes
// ---------------------------------------------------------------------------
/// The characters with the Unicode property `White_Space`, which is what
/// `str::trim` removes.
pub open spec fn is_unicode_whitespace(c: char) -> bool {
    let u = c as u32;
    ||| 0x9 <= u <= 0xd
    ||| u == 0x20
    ||| u == 0x85
    ||| u == 0xa0
    ||| u == 0x1680
    ||| 0x2000 <= u <= 0x200a
    ||| u == 0x2028
    ||| u == 0x2029
    ||| u == 0x202f
    ||| u == 0x205f
    ||| u == 0x3000
}

pub open spec fn is_ascii_digit(c: char) -> bool {
    '0' <= c <= '9'
}

pub open spec fn digit_value(c: char) -> int {
    c as int - '0' as int
}

/// The code of `c` with ASCII upper-case letters mapped to lower case.
pub open spec fn ascii_lower_code(c: char) -> u32 {
    if 'A' <= c <= 'Z' {
        (c as u32 + 32) as u32
    } else {
        c as u32
    }
}

/// Equality of two strings when ASCII letters are compared without case.
pub open spec fn eq_ignore_ascii_case_spec(a: Seq<char>, b: Seq<char>) -> bool {
    &&& a.len() == b.len()
    &&& forall|i: int| 0 <= i < a.len() ==> ascii_lower_code(#[trigger] a[i]) == ascii_lower_code(b[i])
}

// ---------------------------------------------------------------------------
// Trimming
// ---------------------------------------------------------------------------
pub open spec fn trim_start_spec(s: Seq<char>) -> Seq<char>
    decreases s.len(),
{
    if s.len() > 0 && is_unicode_whitespace(s[0]) {
        trim_start_spec(s.drop_first())
    } else {
        s
    }
}

pub open spec fn trim_end_spec(s: Seq<char>) -> Seq<char>
    decreases s.len(),
{
    if s.len() > 0 && is_unicode_whitespace(s.last()) {
        trim_end_spec(s.drop_last())
    } else {
        s
    }
}

/// `s` without its leading and trailing Unicode white space.
pub open spec fn trim_spec(s: Seq<char>) -> Seq<char> {
    trim_end_spec(trim_start_spec(s))
}

proof fn lemma_trim_start(s: Seq<char>, k: int)
    requires
        0 <= k <= s.len(),
        forall|i: int| 0 <= i < k ==> is_unicode_whitespace(#[trigger] s[i]),
        k == s.len() || !is_unicode_whitespace(s[k]),
    ensures
        trim_start_spec(s) == s.subrange(k, s.len() as int),
    decreases k,
{
    if k == 0 {
        assert(s.subrange(0, s.len() as int) =~= s);
    } else {
        let t = s.drop_first();
        assert forall|i: int| 0 <= i < k - 1 implies is_unicode_whitespace(#[trigger] t[i]) by {
            assert(t[i] == s[i + 1]);
        }
        lemma_trim_start(t, k - 1);
        assert(t.subrange(k - 1, t.len() as int) =~= s.subrange(k, s.len() as int));
    }
}

proof fn lemma_trim_end(s: Seq<char>, k: int)
    requires
        0 <= k <= s.len(),
        forall|i: int| k <= i < s.len() ==> is_unicode_whitespace(#[trigger] s[i]),
        k == 0 || !is_unicode_whitespace(s[k - 1]),
    ensures
        trim_end_spec(s) == s.subrange(0, k),
    decreases s.len() - k,
{
    if k == s.len() {
        assert(s.subrange(0, k) =~= s);
    } else {
        let t = s.drop_last();
        assert forall|i: int| k <= i < t.len() implies is_unicode_whitespace(#[trigger] t[i]) by {
            assert(t[i] == s[i]);
        }
        lemma_trim_end(t, k);
        assert(t.subrange(0, k) =~= s.subrange(0, k));
    }
}

proof fn lemma_trim_start_shape(s: Seq<char>) -> (k: int)
    ensures
        0 <= k <= s.len(),
        trim_start_spec(s) == s.subrange(k, s.len() as int),
        forall|m: int| 0 <= m < k ==> is_unicode_whitespace(#[trigger] s[m]),
        k < s.len() ==> !is_unicode_whitespace(s[k]),
    decreases s.len(),
{
    if s.len() > 0 && is_unicode_whitespace(s[0]) {
        let t = s.drop_first();
        let k1 = lemma_trim_start_shape(t);
        assert forall|m: int| 0 <= m < k1 + 1 implies is_unicode_whitespace(#[trigger] s[m]) by {
            if m > 0 {
                assert(s[m] == t[m - 1]);
            }
        }
        assert(t.subrange(k1, t.len() as int) =~= s.subrange(k1 + 1, s.len() as int));
        if k1 + 1 < s.len() {
            assert(s[k1 + 1] == t[k1]);
        }
        k1 + 1
    } else {
        assert(s.subrange(0, s.len() as int) =~= s);
        0
    }
}

proof fn lemma_trim_end_shape(s: Seq<char>) -> (j: int)
    ensures
        0 <= j <= s.len(),
        trim_end_spec(s) == s.subrange(0, j),
        forall|m: int| j <= m < s.len() ==> is_unicode_whitespace(#[trigger] s[m]),
        j > 0 ==> !is_unicode_whitespace(s[j - 1]),
    decreases s.len(),
{
    if s.len() > 0 && is_unicode_whitespace(s.last()) {
        let t = s.drop_last();
        let j1 = lemma_trim_end_shape(t);
        assert forall|m: int| j1 <= m < s.len() implies is_unicode_whitespace(#[trigger] s[m]) by {
            if m < s.len() - 1 {
                assert(s[m] == t[m]);
            }
        }
        assert(t.subrange(0, j1) =~= s.subrange(0, j1));
        if j1 > 0 {
            assert(s[j1 - 1] == t[j1 - 1]);
        }
        j1
    } else {
        assert(s.subrange(0, s.len() as int) =~= s);
        s.len() as int
    }
}

/// Trimming removes white space at both ends and nothing else: the result
/// is the piece `s[i..j]` of the text, everything cut off before `i` and
/// from `j` on is white space, and the result neither starts nor ends with
/// white space.
pub proof fn trim_removes_only_end_whitespace(s: Seq<char>) -> (ij: (int, int))
    ensures
        0 <= ij.0 <= ij.1 <= s.len(),
        trim_spec(s) == s.subrange(ij.0, ij.1),
        forall|m: int| 0 <= m < ij.0 ==> is_unicode_whitespace(#[trigger] s[m]),
        forall|m: int| ij.1 <= m < s.len() ==> is_unicode_whitespace(#[trigger] s[m]),
        ij.0 < ij.1 ==> !is_unicode_whitespace(s[ij.0]) && !is_unicode_whitespace(s[ij.1 - 1]),
{
    let i = lemma_trim_start_shape(s);
    let t = trim_start_spec(s);
    let j1 = lemma_trim_end_shape(t);
    assert(t.subrange(0, j1) =~= s.subrange(i, i + j1));
    assert forall|m: int| i + j1 <= m < s.len() implies is_unicode_whitespace(#[trigger] s[m]) by {
        assert(s[m] == t[m - i]);
    }
    if j1 > 0 {
        assert(s[i + j1 - 1] == t[j1 - 1]);
        assert(s[i] == t[0]);
    }
    (i, i + j1)
}

/// Two texts are equal ignoring ASCII case exactly when they have the same
/// length and, at each place, the same character or the same ASCII letter
/// in the two cases.
pub proof fn eq_ignore_ascii_case_means(a: Seq<char>, b: Seq<char>)
    ensures
        eq_ignore_ascii_case_spec(a, b) <==> a.len() == b.len() && forall|i: int|
            0 <= i < a.len() ==> #[trigger] a[i] == b[i] || ('A' <= a[i] <= 'Z' && b[i] as u32 == a[i] as u32 + 32)
                || ('A' <= b[i] <= 'Z' && a[i] as u32 == b[i] as u32 + 32),
{
    if a.len() == b.len() {
        assert forall|i: int| 0 <= i < a.len() implies (ascii_lower_code(#[trigger] a[i]) == ascii_lower_code(b[i])
            <==> (a[i] == b[i] || ('A' <= a[i] <= 'Z' && b[i] as u32 == a[i] as u32 + 32) || ('A' <= b[i] <= 'Z'
            && a[i] as u32 == b[i] as u32 + 32))) by {
            vstd::utf8::char_u32_cast(a[i], a[i] as u32);
            vstd::utf8::char_u32_cast(b[i], b[i] as u32);
        }
    }
}

pub fn is_whitespace(c: char) -> (b: bool)
    ensures
        b == is_unicode_whitespace(c),
{
    let u = c as u32;
    (0x9 <= u && u <= 0xd) || u == 0x20 || u == 0x85 || u == 0xa0 || u == 0x1680 || (0x2000 <= u
        && u <= 0x200a) || u == 0x2028 || u == 0x2029 || u == 0x202f || u == 0x205f || u == 0x3000
}

/// The characters of `s`, in order.
pub fn chars_of(s: &str) -> (v: Vec<char>)
    ensures
        v@ == s@,
{
    let mut v: Vec<char> = Vec::new();
    for c in it: s.chars()
        invariant
            v@ == it.seq().take(it.index() as int),
    {
        v.push(c);
    }
    v
}

/// A string made of `v[lo..hi]`.
pub fn string_of(v: &Vec<char>, lo: usize, hi: usize) -> (s: String)
    requires
        lo <= hi <= v.len(),
    ensures
        s@ == v@.subrange(lo as int, hi as int),
{
    let mut s = String::new();
    let mut i = lo;
    while i < hi
        invariant
            lo <= i <= hi <= v.len(),
            s@ == v@.subrange(lo as int, i as int),
        decreases hi - i,
    {
        s.push(v[i]);
        assert(v@.subrange(lo as int, i + 1) =~= v@.subrange(lo as int, i as int).push(v@[i as int]));
        i = i + 1;
    }
    s
}

/// The bounds of `v` without its leading and trailing white space.
pub fn trim_bounds(v: &Vec<char>) -> (r: (usize, usize))
    ensures
        r.0 <= r.1 <= v.len(),
        v@.subrange(r.0 as int, r.1 as int) == trim_spec(v@),
{
    let n = v.len();
    let mut lo: usize = 0;
    while lo < n && is_whitespace(v[lo])
        invariant
            lo <= n == v.len(),
            forall|i: int| 0 <= i < lo ==> is_unicode_whitespace(#[trigger] v@[i]),
        decreases n - lo,
    {
        lo = lo + 1;
    }
    proof {
        lemma_trim_start(v@, lo as int);
    }
    let mut hi: usize = n;
    while hi > lo && is_whitespace(v[hi - 1])
        invariant
            lo <= hi <= n == v.len(),
            forall|i: int| hi <= i < n ==> is_unicode_whitespace(#[trigger] v@[i]),
        decreases hi,
    {
        hi = hi - 1;
    }
    proof {
        let t = v@.subrange(lo as int, n as int);
        assert forall|i: int| hi - lo <= i < t.len() implies is_unicode_whitespace(#[trigger] t[i]) by {
            assert(t[i] == v@[i + lo]);
        }
        if hi > lo {
            assert(t[hi - lo - 1] == v@[hi - 1]);
        }
        lemma_trim_end(t, hi - lo);
        assert(t.subrange(0, hi - lo) =~= v@.subrange(lo as int, hi as int));
    }
    (lo, hi)
}

/// `s` with leading and trailing white space removed, as `str::trim` does.
pub fn trim(s: &str) -> (r: String)
    ensures
        r@ == trim_spec(s@),
{
    let v = chars_of(s);
    let (lo, hi) = trim_bounds(&v);
    string_of(&v, lo, hi)
}

/// Whether `a` and `b` are equal when ASCII letters are compared without
/// case, as `str::eq_ignore_ascii_case` decides.
pub fn eq_ignore_ascii_case(a: &str, b: &str) -> (r: bool)
    ensures
        r == eq_ignore_ascii_case_spec(a@, b@),
{
    let x = chars_of(a);
    let y = chars_of(b);
    if x.len() != y.len() {
        return false;
    }
    let mut i: usize = 0;
    while i < x.len()
        invariant
            x@ == a@,
            y@ == b@,
            x.len() == y.len(),
            i <= x.len(),
            forall|j: int| 0 <= j < i ==> ascii_lower_code(#[trigger] x@[j]) == ascii_lower_code(y@[j]),
        decreases x.len() - i,
    {
        if lower_code(x[i]) != lower_code(y[i]) {
            return false;
        }
        i = i + 1;
    }
    true
}

fn lower_code(c: char) -> (u: u32)
    ensures
        u == ascii_lower_code(c),
{
    if 'A' <= c && c <= 'Z' {
        c as u32 + 32
    } else {
        c as u32
    }
}

/// Unicode lower case of a string, as `str::to_lowercase` computes it.
pub uninterp spec fn lowercase_of(s: Seq<char>) -> Seq<char>;

/// Text made of ASCII characters only.
pub open spec fn is_ascii_text(s: Seq<char>) -> bool {
    forall|i: int| 0 <= i < s.len() ==> (#[trigger] s[i] as u32) < 128
}

/// `s` with the ASCII letters `A`-`Z` put in lower case, every other
/// character kept.
pub open spec fn ascii_lowercase(s: Seq<char>) -> Seq<char> {
    s.map_values(|c: char| ascii_lower_code(c) as char)
}

/// Calls `str::to_lowercase`. Its result is a fixed function of the
/// characters of `s` (Unicode's lower-case mapping, not the locale), named
/// `lowercase_of`. Of ASCII text the mapping lowers `A`-`Z` and keeps every
/// other character, as `str::to_ascii_lowercase` does (the documentation of
/// `to_ascii_lowercase` points to `to_lowercase` for lowering non-ASCII
/// characters "in addition"); nothing more is claimed of other text.
#[verifier::external_body]
pub(crate) fn to_lowercase(s: &str) -> (r: String)
    ensures
        r@ == lowercase_of(s@),
        is_ascii_text(s@) ==> r@ == ascii_lowercase(s@),
{
    s.to_lowercase()
}

// ---------------------------------------------------------------------------
// Decimal numbers
// ---------------------------------------------------------------------------
pub open spec fn digit_char(d: int) -> char {
    ('0' as int + d) as char
}

/// The decimal digits of `n`, most significant first, without leading zeros
/// (`"0"` for zero).
pub open spec fn decimal_digits(n: nat) -> Seq<char>
    decreases n,
{
    if n < 10 {
        seq![digit_char(n as int)]
    } else {
        decimal_digits(n / 10).push(digit_char((n % 10) as int))
    }
}

/// How `{}` displays an integer.
pub open spec fn int_text(n: int) -> Seq<char> {
    if n < 0 {
        seq!['-'] + decimal_digits((-n) as nat)
    } else {
        decimal_digits(n as nat)
    }
}

pub open spec fn zeros(k: int) -> Seq<char> {
    Seq::new(if k > 0 { k as nat } else { 0 }, |i: int| '0')
}

/// How `{:0w$}` displays an integer: zeros after the sign up to width `w`.
pub open spec fn zero_padded(n: int, w: int) -> Seq<char> {
    if n < 0 {
        let d = decimal_digits((-n) as nat);
        seq!['-'] + zeros(w - 1 - d.len()) + d
    } else {
        let d = decimal_digits(n as nat);
        zeros(w - d.len()) + d
    }
}

pub proof fn lemma_decimal_digits_len(n: nat)
    ensures
        1 <= decimal_digits(n).len(),
        n < 10 ==> decimal_digits(n).len() == 1,
        10 <= n < 100 ==> decimal_digits(n).len() == 2,
        100 <= n < 1000 ==> decimal_digits(n).len() == 3,
    decreases n,
{
    if n >= 10 {
        lemma_decimal_digits_len(n / 10);
    }
}

fn digit_of(d: u64) -> (c: char)
    requires
        d < 10,
    ensures
        c == digit_char(d as int),
{
    let b: u8 = 48 + d as u8;
    b as char
}

/// Appends the decimal digits of `n`.
pub fn push_decimal(s: &mut String, n: u64)
    ensures
        final(s)@ == old(s)@ + decimal_digits(n as nat),
    decreases n,
{
    if n >= 10 {
        push_decimal(s, n / 10);
    }
    s.push(digit_of(n % 10));
    proof {
        if n >= 10 {
            assert(old(s)@ + decimal_digits(n as nat) =~= (old(s)@ + decimal_digits((n / 10) as nat)).push(
                digit_char((n % 10) as int),
            ));
        } else {
            assert(old(s)@ + decimal_digits(n as nat) =~= old(s)@.push(digit_char(n as int)));
        }
    }
}

/// Appends the integer whose sign is given by `negative` and whose
/// magnitude is `magnitude`, as `{}` displays it.
pub fn push_int(s: &mut String, negative: bool, magnitude: u64)
    ensures
        final(s)@ == old(s)@ + int_text(if negative { -magnitude } else { magnitude as int }),
{
    if negative && magnitude > 0 {
        s.push('-');
        push_decimal(s, magnitude);
        assert(old(s)@ + int_text(-magnitude) =~= old(s)@.push('-') + decimal_digits(
            magnitude as nat,
        ));
    } else {
        push_decimal(s, magnitude);
    }
}

/// Appends `k` zeros.
fn push_zeros(s: &mut String, k: usize)
    ensures
        final(s)@ == old(s)@ + zeros(k as int),
{
    let mut i: usize = 0;
    while i < k
        invariant
            i <= k,
            s@ == old(s)@ + zeros(i as int),
        decreases k - i,
    {
        s.push('0');
        assert(old(s)@ + zeros(i + 1) =~= (old(s)@ + zeros(i as int)).push('0'));
        i = i + 1;
    }
}

/// Appends the integer of sign `negative` and magnitude `magnitude` below
/// 1000, zero-padded to `width` (at most 3), as `{:0width$}` displays it.
pub fn push_zero_padded(s: &mut String, negative: bool, magnitude: u64, width: usize)
    requires
        magnitude < 1000,
        width <= 3,
    ensures
        final(s)@ == old(s)@ + zero_padded(if negative { -magnitude } else { magnitude as int }, width as int),
{
    proof {
        lemma_decimal_digits_len(magnitude as nat);
    }
    let len: usize = if magnitude < 10 {
        1
    } else if magnitude < 100 {
        2
    } else {
        3
    };
    let ghost n: int = if negative { -magnitude } else { magnitude as int };
    if negative && magnitude > 0 {
        s.push('-');
        let pad: usize = if width >= 1 + len { width - 1 - len } else { 0 };
        push_zeros(s, pad);
        push_decimal(s, magnitude);
        assert(old(s)@ + zero_padded(n, width as int) =~= old(s)@.push('-') + zeros(pad as int)
            + decimal_digits(magnitude as nat));
    } else {
        let pad: usize = if width >= len { width - len } else { 0 };
        push_zeros(s, pad);
        push_decimal(s, magnitude);
        assert(zeros(width - decimal_digits(magnitude as nat).len()) =~= zeros(pad as int));
        assert(old(s)@ + zero_padded(n, width as int) =~= old(s)@ + zeros(pad as int) + decimal_digits(
            magnitude as nat,
        ));
    }
}

/// The value of a string of decimal digits.
pub open spec fn digits_value(s: Seq<char>) -> int
    decreases s.len(),
{
    if s.len() == 0 {
        0
    } else {
        digits_value(s.drop_last()) * 10 + digit_value(s.last())
    }
}

pub open spec fn all_digits(s: Seq<char>) -> bool {
    forall|i: int| 0 <= i < s.len() ==> is_ascii_digit(#[trigger] s[i])
}

/// The decimal digits of `n` are digits, and read back as `n`.
pub proof fn lemma_decimal_digits_value(n: nat)
    ensures
        all_digits(decimal_digits(n)),
        digits_value(decimal_digits(n)) == n,
    decreases n,
{
    let s = decimal_digits(n);
    if n >= 10 {
        lemma_decimal_digits_value(n / 10);
        let d = decimal_digits(n / 10);
        assert(s.drop_last() =~= d);
        assert(s.last() == digit_char((n % 10) as int));
        assert(digit_value(digit_char((n % 10) as int)) == n % 10);
        assert(digits_value(s) == digits_value(d) * 10 + digit_value(s.last()));
        assert((n / 10) * 10 + n % 10 == n);
        assert forall|i: int| 0 <= i < s.len() implies is_ascii_digit(#[trigger] s[i]) by {
            if i < d.len() {
                assert(s[i] == d[i]);
            }
        }
    } else {
        assert(s.drop_last() =~= Seq::<char>::empty());
        assert(s.last() == digit_char(n as int));
        assert(digit_value(digit_char(n as int)) == n);
        assert(digits_value(s) == digits_value(s.drop_last()) * 10 + digit_value(s.last()));
    }
}

/// A string of zeros is worth nothing.
pub proof fn lemma_digits_value_zeros(k: int)
    ensures
        all_digits(zeros(k)),
        digits_value(zeros(k)) == 0,
    decreases k,
{
    if k > 0 {
        lemma_digits_value_zeros(k - 1);
        assert(zeros(k).drop_last() =~= zeros(k - 1));
    }
}

/// Leading zeros do not change the value of digits.
pub proof fn lemma_digits_value_leading_zeros(k: int, d: Seq<char>)
    requires
        all_digits(d),
    ensures
        all_digits(zeros(k) + d),
        digits_value(zeros(k) + d) == digits_value(d),
    decreases d.len(),
{
    lemma_digits_value_zeros(k);
    let s = zeros(k) + d;
    if d.len() == 0 {
        assert(s =~= zeros(k));
    } else {
        let t = d.drop_last();
        assert(all_digits(t)) by {
            assert forall|i: int| 0 <= i < t.len() implies is_ascii_digit(#[trigger] t[i]) by {
                assert(t[i] == d[i]);
            }
        }
        lemma_digits_value_leading_zeros(k, t);
        assert(s.drop_last() =~= zeros(k) + t);
        assert(s.last() == d.last());
    }
    assert forall|i: int| 0 <= i < s.len() implies is_ascii_digit(#[trigger] s[i]) by {
        if i >= zeros(k).len() {
            assert(s[i] == d[i - zeros(k).len()]);
        }
    }
}

/// A trailing zero multiplies the value of digits by ten.
pub proof fn lemma_digits_value_trailing_zero(d: Seq<char>)
    requires
        all_digits(d),
    ensures
        all_digits(d.push('0')),
        digits_value(d.push('0')) == digits_value(d) * 10,
{
    assert(d.push('0').drop_last() =~= d);
    assert forall|i: int| 0 <= i < d.push('0').len() implies is_ascii_digit(#[trigger] d.push('0')[i]) by {
        if i < d.len() {
            assert(d.push('0')[i] == d[i]);
        }
    }
}

/// `n` zero-padded to width `w` is made of digits, at least `w` of them,
/// and reads back as `n`.
pub proof fn lemma_zero_padded_value(n: nat, w: int)
    ensures
        all_digits(zero_padded(n as int, w)),
        digits_value(zero_padded(n as int, w)) == n,
        zero_padded(n as int, w).len() == if w > decimal_digits(n).len() {
            w
        } else {
            decimal_digits(n).len() as int
        },
{
    lemma_decimal_digits_value(n);
    lemma_digits_value_leading_zeros(w - decimal_digits(n).len(), decimal_digits(n));
}

/// What `str::parse` gives for an unsigned integer type of maximum `max`
/// (and for a signed one on text that does not start with `-`): an optional
/// `+`, then one or more ASCII digits whose value is at most `max`.
pub open spec fn parse_unsigned_spec(s: Seq<char>, max: int) -> Option<int> {
    let body = if s.len() > 0 && s[0] == '+' {
        s.drop_first()
    } else {
        s
    };
    if body.len() > 0 && all_digits(body) && digits_value(body) <= max {
        Some(digits_value(body))
    } else {
        None
    }
}

proof fn lemma_digits_value_nonneg(s: Seq<char>)
    requires
        all_digits(s),
    ensures
        digits_value(s) >= 0,
    decreases s.len(),
{
    if s.len() > 0 {
        lemma_digits_value_nonneg(s.drop_last());
    }
}

/// Parses `s[from..]` as an unsigned decimal number no larger than `max`,
/// following `str::parse` for integers.
pub fn parse_unsigned(s: &Vec<char>, max: u64) -> (r: Option<u64>)
    requires
        max <= i64::MAX,
    ensures
        r matches Some(v) ==> parse_unsigned_spec(s@, max as int) == Some(v as int),
        r is None ==> parse_unsigned_spec(s@, max as int) is None,
{
    let start: usize = if s.len() > 0 && s[0] == '+' {
        1
    } else {
        0
    };
    let ghost body = if s@.len() > 0 && s@[0] == '+' {
        s@.drop_first()
    } else {
        s@
    };
    assert(body =~= s@.subrange(start as int, s@.len() as int));
    if start >= s.len() {
        return None;
    }
    let mut acc: u128 = 0;
    let mut over = false;
    let mut i = start;
    while i < s.len()
        invariant
            start <= i <= s.len(),
            max <= i64::MAX,
            body == s@.subrange(start as int, s@.len() as int),
            body == (if s@.len() > 0 && s@[0] == '+' { s@.drop_first() } else { s@ }),
            all_digits(s@.subrange(start as int, i as int)),
            !over ==> acc == digits_value(s@.subrange(start as int, i as int)) && acc <= max,
            over ==> digits_value(s@.subrange(start as int, i as int)) > max,
        decreases s.len() - i,
    {
        let c = s[i];
        if !('0' <= c && c <= '9') {
            assert(body[i - start] == c);
            assert(!is_ascii_digit(body[i - start]));
            return None;
        }
        let d: u128 = (c as u32 - 48) as u128;
        let ghost prev = s@.subrange(start as int, i as int);
        let ghost next = s@.subrange(start as int, i + 1);
        assert(next.drop_last() =~= prev);
        assert(next.last() == c);
        proof {
            lemma_digits_value_nonneg(prev);
        }
        if !over {
            acc = acc * 10 + d;
            if acc > max as u128 {
                over = true;
            }
        }
        assert(all_digits(next)) by {
            assert forall|j: int| 0 <= j < next.len() implies is_ascii_digit(#[trigger] next[j]) by {
                if j < prev.len() {
                    assert(next[j] == prev[j]);
                }
            }
        }
        i = i + 1;
    }
    assert(s@.subrange(start as int, s@.len() as int) =~= body);
    if over {
        None
    } else {
        Some(acc as u64)
    }
}

// ---------------------------------------------------------------------------
// Length in bytes
// ---------------------------------------------------------------------------
/// How many bytes the UTF-8 encoding of `c` takes.
pub open spec fn char_utf8_width(c: char) -> nat {
    let u = c as u32;
    if u < 0x80 {
        1
    } else if u < 0x800 {
        2
    } else if u < 0x10000 {
        3
    } else {
        4
    }
}

/// The length in bytes of the UTF-8 encoding of `s`, which is what
/// `str::len` returns.
pub open spec fn utf8_len(s: Seq<char>) -> nat
    decreases s.len(),
{
    if s.len() == 0 {
        0
    } else {
        utf8_len(s.drop_last()) + char_utf8_width(s.last())
    }
}

proof fn lemma_utf8_len_first(s: Seq<char>)
    requires
        s.len() > 0,
    ensures
        utf8_len(s) == char_utf8_width(s[0]) + utf8_len(s.drop_first()),
    decreases s.len(),
{
    if s.len() > 1 {
        lemma_utf8_len_first(s.drop_last());
        assert(s.drop_last().drop_first() =~= s.drop_first().drop_last());
        assert(s.drop_last()[0] == s[0]);
        assert(s.drop_first().last() == s.last());
    } else {
        assert(s.drop_last() =~= Seq::<char>::empty());
        assert(s.drop_first() =~= Seq::<char>::empty());
    }
}

/// The length that `utf8_len` gives is the number of bytes of the UTF-8
/// encoding of the text (vstd's `encode_utf8`), which is what `str::len`
/// counts.
pub proof fn utf8_len_is_encoded_length(s: Seq<char>)
    ensures
        utf8_len(s) == encode_utf8(s).len(),
    decreases s.len(),
{
    if s.len() > 0 {
        lemma_utf8_len_first(s);
        utf8_len_is_encoded_length(s.drop_first());
        let c = s[0];
        let u = c as u32;
        assert(encode_scalar(u).len() == char_utf8_width(c)) by {
            char_is_scalar(c);
        }
    }
}

/// Each character takes at most four bytes.
pub proof fn lemma_utf8_len_bound(s: Seq<char>)
    ensures
        utf8_len(s) <= 4 * s.len(),
    decreases s.len(),
{
    if s.len() > 0 {
        lemma_utf8_len_bound(s.drop_last());
    }
}

fn utf8_width(c: char) -> (w: u64)
    ensures
        w == char_utf8_width(c),
{
    let u = c as u32;
    if u < 0x80 {
        1
    } else if u < 0x800 {
        2
    } else if u < 0x10000 {
        3
    } else {
        4
    }
}

/// Whether `s` takes fewer than `bound` bytes in UTF-8.
pub fn utf8_len_below(s: &str, bound: u64) -> (b: bool)
    requires
        bound <= u32::MAX,
    ensures
        b == (utf8_len(s@) < bound),
{
    let v = chars_of(s);
    let mut acc: u64 = 0;
    let mut i: usize = 0;
    while i < v.len()
        invariant
            i <= v.len(),
            v@ == s@,
            bound <= u32::MAX,
            acc <= bound,
            acc < bound ==> acc == utf8_len(v@.take(i as int)),
            acc == bound ==> utf8_len(v@.take(i as int)) >= bound,
        decreases v.len() - i,
    {
        assert(v@.take(i + 1).drop_last() =~= v@.take(i as int));
        let w = utf8_width(v[i]);
        if acc < bound {
            acc = if acc + w >= bound {
                bound
            } else {
                acc + w
            };
        }
        i = i + 1;
    }
    assert(v@.take(v.len() as int) =~= s@);
    acc < bound
}

} // verus!
