//! Decimal text: rendering integers as ASCII digit strings, reading digit
//! strings back, and trimming ASCII whitespace. The envelope's length,
//! RSSI and SNR fields and the JSON encoder both live on these.

use vstd::prelude::*;

verus! {

use vstd::arithmetic::div_mod::lemma_fundamental_div_mod;

/// ASCII `0`.
pub const B_ZERO: u8 = 48;

/// ASCII `9`.
pub const B_NINE: u8 = 57;

/// ASCII minus sign.
pub const B_MINUS: u8 = 45;

/// ASCII plus sign.
pub const B_PLUS: u8 = 43;

/// ASCII space.
pub const B_SPACE: u8 = 32;

/// ASCII decimal digit.
pub open spec fn is_digit(b: u8) -> bool {
    B_ZERO <= b <= B_NINE
}

pub open spec fn all_digits(s: Seq<u8>) -> bool {
    forall|i: int| 0 <= i < s.len() ==> is_digit(#[trigger] s[i])
}

/// Numeric value of a digit string (most significant digit first).
pub open spec fn digits_value(s: Seq<u8>) -> nat
    decreases s.len(),
{
    if s.len() == 0 {
        0nat
    } else {
        (digits_value(s.drop_last()) * 10 + (s.last() - B_ZERO)) as nat
    }
}

/// Appending a digit multiplies the value by ten and adds the digit.
pub proof fn lemma_digits_value_push(s: Seq<u8>, d: u8)
    requires
        is_digit(d),
    ensures
        digits_value(s.push(d)) == digits_value(s) * 10 + (d - B_ZERO),
{
    assert(s.push(d).drop_last() =~= s);
    assert(s.push(d).last() == d);
}

/// Decimal rendering of an unsigned value, most significant digit first,
/// no leading zeros (a single `0` for zero).
pub open spec fn spec_dec_nat(n: nat) -> Seq<u8>
    decreases n,
{
    if n < 10 {
        seq![(B_ZERO + n) as u8]
    } else {
        spec_dec_nat(n / 10) + seq![(B_ZERO + n % 10) as u8]
    }
}

/// Decimal rendering of a signed value: a leading minus for negatives.
pub open spec fn spec_dec_int(v: int) -> Seq<u8> {
    if v < 0 {
        seq![B_MINUS] + spec_dec_nat((-v) as nat)
    } else {
        spec_dec_nat(v as nat)
    }
}

/// Rendering produces digits, at least one of them.
pub proof fn lemma_dec_nat_digits(n: nat)
    ensures
        all_digits(spec_dec_nat(n)),
        spec_dec_nat(n).len() >= 1,
    decreases n,
{
    if n >= 10 {
        lemma_dec_nat_digits(n / 10);
        assert forall|i: int| 0 <= i < spec_dec_nat(n).len() implies is_digit(
            #[trigger] spec_dec_nat(n)[i],
        ) by {
            if i < spec_dec_nat(n / 10).len() {
                assert(spec_dec_nat(n)[i] == spec_dec_nat(n / 10)[i]);
            }
        }
    }
}

/// Rendering then reading gives the value back.
pub proof fn lemma_dec_nat_value(n: nat)
    ensures
        digits_value(spec_dec_nat(n)) == n,
    decreases n,
{
    if n < 10 {
        assert(spec_dec_nat(n) == seq![(B_ZERO + n) as u8]);
        assert(spec_dec_nat(n).drop_last() =~= Seq::<u8>::empty());
        assert(spec_dec_nat(n).last() == (B_ZERO + n) as u8);
        assert(digits_value(Seq::<u8>::empty()) == 0);
        assert((B_ZERO + n) as u8 == B_ZERO + n);
    } else {
        lemma_dec_nat_value(n / 10);
        assert(spec_dec_nat(n) == spec_dec_nat(n / 10) + seq![(B_ZERO + n % 10) as u8]);
        assert(spec_dec_nat(n).drop_last() =~= spec_dec_nat(n / 10));
        assert(spec_dec_nat(n).last() == (B_ZERO + n % 10) as u8);
        assert((B_ZERO + n % 10) as u8 == B_ZERO + n % 10);
        lemma_fundamental_div_mod(n as int, 10);
        assert(digits_value(spec_dec_nat(n)) == (n / 10) * 10 + n % 10);
    }
}

/// `10^k`.
pub open spec fn pow10(k: nat) -> nat
    decreases k,
{
    if k == 0 {
        1nat
    } else {
        10 * pow10((k - 1) as nat)
    }
}

/// A value below `10^k` renders in at most `k` digits.
pub proof fn lemma_dec_nat_len(n: nat, k: nat)
    requires
        k >= 1,
        n < pow10(k),
    ensures
        1 <= spec_dec_nat(n).len() <= k,
    decreases k,
{
    if n >= 10 {
        assert(n / 10 < pow10((k - 1) as nat)) by {
            lemma_fundamental_div_mod(n as int, 10);
        }
        lemma_dec_nat_len(n / 10, (k - 1) as nat);
    }
}

pub proof fn lemma_pow10_10()
    ensures
        pow10(10nat) == 10_000_000_000,
        pow10(5nat) == 100_000,
        pow10(4nat) == 10_000,
        pow10(8nat) == 100_000_000,
{
    assert(pow10(1nat) == 10 * pow10(0nat));
    assert(pow10(2nat) == 10 * pow10(1nat));
    assert(pow10(3nat) == 10 * pow10(2nat));
    assert(pow10(4nat) == 10 * pow10(3nat));
    assert(pow10(5nat) == 10 * pow10(4nat));
    assert(pow10(6nat) == 10 * pow10(5nat));
    assert(pow10(7nat) == 10 * pow10(6nat));
    assert(pow10(8nat) == 10 * pow10(7nat));
    assert(pow10(9nat) == 10 * pow10(8nat));
    assert(pow10(10nat) == 10 * pow10(9nat));
}

/// Appends the decimal rendering of `n` to `out`.
pub fn push_dec_u64(out: &mut Vec<u8>, n: u64)
    ensures
        final(out)@ == old(out)@ + spec_dec_nat(n as nat),
    decreases n,
{
    if n < 10 {
        out.push(B_ZERO + (n as u8));
    } else {
        let ghost pre = out@;
        push_dec_u64(out, n / 10);
        out.push(B_ZERO + ((n % 10) as u8));
        assert(out@ =~= pre + spec_dec_nat(n as nat));
    }
}

/// Appends the decimal rendering of `v`, minus sign included, to `out`.
pub fn push_dec_i64(out: &mut Vec<u8>, v: i64)
    ensures
        final(out)@ == old(out)@ + spec_dec_int(v as int),
{
    if v < 0 {
        let ghost pre = out@;
        out.push(B_MINUS);
        let mag: u64 = (-(v as i128)) as u64;
        push_dec_u64(out, mag);
        assert(out@ =~= pre + spec_dec_int(v as int));
    } else {
        push_dec_u64(out, v as u64);
    }
}

/// Reads the digits `s[lo..hi]` as a number, exactly if the value stays
/// below `cap`, else saturating at `cap`.
pub fn digits_value_capped(s: &[u8], lo: usize, hi: usize, cap: u128) -> (r: u128)
    requires
        lo <= hi <= s@.len(),
        all_digits(s@.subrange(lo as int, hi as int)),
        1 <= cap <= 0x1000_0000_0000_0000_0000_0000_0000_0000,
    ensures
        r <= cap,
        r < cap ==> r as nat == digits_value(s@.subrange(lo as int, hi as int)),
        r == cap ==> digits_value(s@.subrange(lo as int, hi as int)) >= cap,
{
    let mut acc: u128 = 0;
    let mut i = lo;
    while i < hi
        invariant
            lo <= i <= hi <= s@.len(),
            all_digits(s@.subrange(lo as int, hi as int)),
            1 <= cap <= 0x1000_0000_0000_0000_0000_0000_0000_0000,
            acc <= cap,
            acc < cap ==> acc as nat == digits_value(s@.subrange(lo as int, i as int)),
            acc == cap ==> digits_value(s@.subrange(lo as int, i as int)) >= cap,
        decreases hi - i,
    {
        let ghost pfx = s@.subrange(lo as int, i as int);
        let b = s[i];
        assert(is_digit(b)) by {
            assert(s@.subrange(lo as int, hi as int)[i - lo] == b);
        }
        proof {
            assert(s@.subrange(lo as int, i as int + 1) =~= pfx.push(b));
            lemma_digits_value_push(pfx, b);
        }
        let d: u128 = (b - B_ZERO) as u128;
        if acc == cap {
            proof {
                assert(digits_value(pfx.push(b)) >= digits_value(pfx)) by {
                    lemma_digits_value_push(pfx, b);
                }
            }
        } else {
            let next = acc * 10 + d;
            if next >= cap {
                proof {
                    assert(digits_value(pfx.push(b)) >= cap);
                }
                acc = cap;
            } else {
                acc = next;
            }
        }
        i = i + 1;
    }
    acc
}

/// True when every byte of `s[lo..hi]` is an ASCII decimal digit.
pub fn check_digits(s: &[u8], lo: usize, hi: usize) -> (r: bool)
    requires
        lo <= hi <= s@.len(),
    ensures
        r == all_digits(s@.subrange(lo as int, hi as int)),
{
    let mut i = lo;
    while i < hi
        invariant
            lo <= i <= hi <= s@.len(),
            forall|j: int| lo <= j < i ==> is_digit(#[trigger] s@[j]),
        decreases hi - i,
    {
        let b = s[i];
        if b < B_ZERO || b > B_NINE {
            assert(!is_digit(s@.subrange(lo as int, hi as int)[i - lo]));
            return false;
        }
        i = i + 1;
    }
    assert forall|j: int| 0 <= j < hi - lo implies is_digit(
        #[trigger] s@.subrange(lo as int, hi as int)[j],
    ) by {
        assert(s@.subrange(lo as int, hi as int)[j] == s@[lo + j]);
    }
    true
}

/// ASCII whitespace: tab, line feed, vertical tab, form feed, carriage
/// return and space. Trimming here covers these bytes only; whitespace
/// characters beyond ASCII are left in place.
pub open spec fn is_ws(b: u8) -> bool {
    b == B_SPACE || (9 <= b <= 13)
}

/// `s` with leading ASCII whitespace removed.
pub open spec fn trim_start(s: Seq<u8>) -> Seq<u8>
    decreases s.len(),
{
    if s.len() > 0 && is_ws(s[0]) {
        trim_start(s.skip(1))
    } else {
        s
    }
}

/// `s` with trailing ASCII whitespace removed.
pub open spec fn trim_end(s: Seq<u8>) -> Seq<u8>
    decreases s.len(),
{
    if s.len() > 0 && is_ws(s.last()) {
        trim_end(s.drop_last())
    } else {
        s
    }
}

/// `s` with ASCII whitespace removed from both ends.
pub open spec fn trim(s: Seq<u8>) -> Seq<u8> {
    trim_end(trim_start(s))
}

/// A rendered signed value holds no comma and no whitespace: a minus sign
/// at most in front, digits everywhere else.
pub proof fn lemma_dec_int_plain(v: int)
    ensures
        spec_dec_int(v).len() >= 1,
        forall|i: int|
            0 <= i < spec_dec_int(v).len() ==> (#[trigger] spec_dec_int(v)[i]) != 44 && !is_ws(
                spec_dec_int(v)[i],
            ),
        !is_ws(spec_dec_int(v)[0]),
        is_digit(spec_dec_int(v).last()),
{
    if v < 0 {
        lemma_dec_nat_digits((-v) as nat);
        let s = spec_dec_int(v);
        assert forall|i: int| 0 <= i < s.len() implies (#[trigger] s[i]) != 44 && !is_ws(s[i]) by {
            if i >= 1 {
                assert(s[i] == spec_dec_nat((-v) as nat)[i - 1]);
                assert(is_digit(s[i]));
            }
        }
        assert(s.last() == spec_dec_nat((-v) as nat).last());
        assert(is_digit(spec_dec_nat((-v) as nat).last()));
    } else {
        lemma_dec_nat_digits(v as nat);
        let s = spec_dec_int(v);
        assert(is_digit(s.last()));
        assert forall|i: int| 0 <= i < s.len() implies (#[trigger] s[i]) != 44 && !is_ws(s[i]) by {
            assert(is_digit(s[i]));
        }
    }
}

/// Rendering a value in `i16` range and reading it back gives the value.
pub proof fn lemma_parse_dec_i16(v: i16)
    ensures
        spec_parse_i16(spec_dec_int(v as int)) == Some(v),
{
    if v < 0 {
        let mag = (-(v as int)) as nat;
        lemma_dec_nat_digits(mag);
        lemma_dec_nat_value(mag);
        let s = spec_dec_int(v as int);
        assert(s[0] == B_MINUS);
        assert(s.skip(1) =~= spec_dec_nat(mag));
    } else {
        lemma_dec_nat_digits(v as nat);
        lemma_dec_nat_value(v as nat);
        let s = spec_dec_int(v as int);
        assert(is_digit(s[0]));
        assert(s[0] != B_MINUS && s[0] != B_PLUS);
    }
}

/// First index at or after `start` where `b` occurs in `s`.
pub open spec fn first_index_of(s: Seq<u8>, start: int, b: u8) -> Option<int>
    decreases s.len() - start,
    when 0 <= start <= s.len()
{
    if start >= s.len() {
        None
    } else if s[start] == b {
        Some(start)
    } else {
        first_index_of(s, start + 1, b)
    }
}

/// What a found (or missing) index means, element by element.
pub proof fn lemma_first_index_of_props(s: Seq<u8>, start: int, b: u8)
    requires
        0 <= start <= s.len(),
    ensures
        match first_index_of(s, start, b) {
            None => forall|i: int| start <= i < s.len() ==> s[i] != b,
            Some(j) => start <= j < s.len() && s[j] == b && (forall|i: int|
                start <= i < j ==> s[i] != b),
        },
    decreases s.len() - start,
{
    if start < s.len() && s[start] != b {
        lemma_first_index_of_props(s, start + 1, b);
    }
}

/// An occurrence with nothing equal before it is the first.
pub proof fn lemma_first_index_at(s: Seq<u8>, start: int, j: int, b: u8)
    requires
        0 <= start <= j < s.len(),
        s[j] == b,
        forall|i: int| start <= i < j ==> s[i] != b,
    ensures
        first_index_of(s, start, b) == Some(j),
    decreases j - start,
{
    if start < j {
        lemma_first_index_at(s, start + 1, j, b);
    }
}

/// Nothing at or after `start` equals `b`: no first index.
pub proof fn lemma_first_index_none(s: Seq<u8>, start: int, b: u8)
    requires
        0 <= start <= s.len(),
        forall|i: int| start <= i < s.len() ==> s[i] != b,
    ensures
        first_index_of(s, start, b) is None,
    decreases s.len() - start,
{
    if start < s.len() {
        lemma_first_index_none(s, start + 1, b);
    }
}

/// Searching a suffix finds the same occurrence, shifted.
pub proof fn lemma_first_index_of_skip(s: Seq<u8>, k: int, start: int, b: u8)
    requires
        0 <= k <= start <= s.len(),
    ensures
        first_index_of(s.skip(k), start - k, b) == match first_index_of(s, start, b) {
            None => None::<int>,
            Some(j) => Some(j - k),
        },
    decreases s.len() - start,
{
    if start < s.len() {
        assert(s.skip(k)[start - k] == s[start]);
        if s[start] != b {
            lemma_first_index_of_skip(s, k, start + 1, b);
        }
    }
}

/// First index at or after `start` where `b` occurs in `s`, as executable
/// search.
pub fn find_byte(s: &[u8], start: usize, b: u8) -> (r: Option<usize>)
    requires
        start <= s@.len(),
    ensures
        match first_index_of(s@, start as int, b) {
            None => r is None,
            Some(j) => start <= j < s@.len() && s@[j] == b && r == Some(j as usize),
        },
{
    proof {
        lemma_first_index_of_props(s@, start as int, b);
    }
    let n = s.len();
    let mut i = start;
    while i < n
        invariant
            start <= i <= n == s@.len(),
            first_index_of(s@, start as int, b) == first_index_of(s@, i as int, b),
        decreases n - i,
    {
        if s[i] == b {
            return Some(i);
        }
        i = i + 1;
    }
    None
}

/// First index at or after `from` where `n` occurs in `h` as a contiguous
/// run of bytes.
pub open spec fn first_match(h: Seq<u8>, n: Seq<u8>, from: int) -> Option<int>
    decreases h.len() - from,
    when 0 <= from <= h.len()
{
    if from + n.len() > h.len() {
        None
    } else if h.subrange(from, from + n.len()) == n {
        Some(from)
    } else if from < h.len() {
        first_match(h, n, from + 1)
    } else {
        None
    }
}

/// Searching a suffix finds the same occurrence, shifted.
pub proof fn lemma_first_match_skip(h: Seq<u8>, n: Seq<u8>, k: int, from: int)
    requires
        0 <= k <= from <= h.len(),
    ensures
        first_match(h.skip(k), n, from - k) == match first_match(h, n, from) {
            None => None::<int>,
            Some(j) => Some(j - k),
        },
    decreases h.len() - from,
{
    if from + n.len() <= h.len() {
        assert(h.skip(k).subrange(from - k, from - k + n.len()) =~= h.subrange(
            from,
            from + n.len(),
        ));
        if h.subrange(from, from + n.len()) != n {
            assert(n.len() > 0) by {
                if n.len() == 0 {
                    assert(h.subrange(from, from) =~= n);
                }
            }
            lemma_first_match_skip(h, n, k, from + 1);
        }
    }
}

/// Whether `n` sits at position `i` of `h`.
fn subslice_matches(h: &[u8], i: usize, n: &[u8]) -> (r: bool)
    requires
        i <= h@.len(),
        n@.len() <= h@.len() - i,
    ensures
        r == (h@.subrange(i as int, i as int + n@.len() as int) == n@),
{
    let hl = h.len();
    let nl = n.len();
    let mut j: usize = 0;
    while j < nl
        invariant
            j <= nl == n@.len(),
            hl == h@.len(),
            i + nl <= hl,
            forall|x: int| 0 <= x < j ==> h@[i + x] == n@[x],
        decreases nl - j,
    {
        if h[i + j] != n[j] {
            assert(h@.subrange(i as int, i as int + n@.len() as int)[j as int] != n@[j as int]);
            return false;
        }
        j = j + 1;
    }
    assert(h@.subrange(i as int, i as int + n@.len() as int) =~= n@);
    true
}

/// First occurrence of `n` in `h` at or after `from`, as executable
/// search.
pub fn find_subslice(h: &[u8], from: usize, n: &[u8]) -> (r: Option<usize>)
    requires
        from <= h@.len(),
    ensures
        match first_match(h@, n@, from as int) {
            None => r is None,
            Some(j) => from <= j && j + n@.len() <= h@.len() && h@.subrange(
                j,
                j + n@.len() as int,
            ) == n@ && r == Some(j as usize),
        },
{
    proof {
        lemma_first_match_props(h@, n@, from as int);
    }
    let hl = h.len();
    let nl = n.len();
    if nl > hl - from {
        return None;
    }
    if nl == 0 {
        proof {
            assert(h@.subrange(from as int, from as int) =~= n@);
        }
        return Some(from);
    }
    let mut i = from;
    while i <= hl - nl
        invariant
            from <= i,
            i <= hl - nl + 1,
            1 <= nl <= hl - from,
            hl == h@.len(),
            nl == n@.len(),
            first_match(h@, n@, from as int) == first_match(h@, n@, i as int),
        ensures
            from <= i,
            1 <= nl <= hl - from,
            hl == h@.len(),
            nl == n@.len(),
            i <= hl - nl ==> first_match(h@, n@, from as int) == Some(i as int),
            i > hl - nl ==> first_match(h@, n@, from as int) is None,
        decreases hl - i,
    {
        if subslice_matches(h, i, n) {
            proof {
                assert(first_match(h@, n@, i as int) == Some(i as int));
            }
            break ;
        }
        proof {
            assert(first_match(h@, n@, i as int) == first_match(h@, n@, i as int + 1));
        }
        i = i + 1;
    }
    if i <= hl - nl {
        Some(i)
    } else {
        None
    }
}

proof fn lemma_first_match_props(h: Seq<u8>, n: Seq<u8>, from: int)
    requires
        0 <= from <= h.len(),
    ensures
        match first_match(h, n, from) {
            None => true,
            Some(j) => from <= j && j + n.len() <= h.len() && h.subrange(j, j + n.len()) == n,
        },
    decreases h.len() - from,
{
    if n.len() == 0 {
        assert(h.subrange(from, from) =~= n);
    } else if from + n.len() <= h.len() && h.subrange(from, from + n.len()) != n {
        lemma_first_match_props(h, n, from + 1);
    }
}

/// `s` with every trailing repetition of `suf` removed.
pub open spec fn strip_suffix_all(s: Seq<u8>, suf: Seq<u8>) -> Seq<u8>
    decreases s.len(),
    when suf.len() > 0
{
    if s.len() >= suf.len() && s.subrange(s.len() - suf.len(), s.len() as int) == suf {
        strip_suffix_all(s.take(s.len() - suf.len()), suf)
    } else {
        s
    }
}

/// A signed decimal integer as the standard integer parser reads it: an
/// optional sign — minus or plus — then digits, value in `i16` range.
pub open spec fn spec_parse_i16(s: Seq<u8>) -> Option<i16> {
    let neg = s.len() > 0 && s[0] == B_MINUS;
    let signed = s.len() > 0 && (s[0] == B_MINUS || s[0] == B_PLUS);
    let digits = if signed {
        s.skip(1)
    } else {
        s
    };
    if digits.len() == 0 || !all_digits(digits) {
        None
    } else {
        let v = digits_value(digits);
        if neg {
            if v <= 32768 {
                Some((-(v as int)) as i16)
            } else {
                None
            }
        } else {
            if v <= 32767 {
                Some(v as i16)
            } else {
                None
            }
        }
    }
}

/// Reads `s[lo..hi]` as a signed decimal `i16`.
pub fn parse_i16_field(s: &[u8], lo: usize, hi: usize) -> (r: Option<i16>)
    requires
        lo <= hi <= s@.len(),
    ensures
        r == spec_parse_i16(s@.subrange(lo as int, hi as int)),
{
    let ghost field = s@.subrange(lo as int, hi as int);
    let neg = lo < hi && s[lo] == B_MINUS;
    let signed = lo < hi && (s[lo] == B_MINUS || s[lo] == B_PLUS);
    let dlo = if signed {
        proof {
            assert(field.skip(1) =~= s@.subrange(lo as int + 1, hi as int));
        }
        lo + 1
    } else {
        lo
    };
    if dlo == hi {
        return None;
    }
    if !check_digits(s, dlo, hi) {
        return None;
    }
    let v = digits_value_capped(s, dlo, hi, 65536);
    if neg {
        if v <= 32768 {
            Some((-(v as i32)) as i16)
        } else {
            None
        }
    } else {
        if v <= 32767 {
            Some(v as i16)
        } else {
            None
        }
    }
}

/// Start of the whitespace-trimmed region of `s[lo..hi]`.
pub fn trim_start_index(s: &[u8], lo: usize, hi: usize) -> (r: usize)
    requires
        lo <= hi <= s@.len(),
    ensures
        lo <= r <= hi,
        trim_start(s@.subrange(lo as int, hi as int)) == s@.subrange(r as int, hi as int),
        forall|j: int| lo <= j < r ==> is_ws(#[trigger] s@[j]),
{
    let mut i = lo;
    while i < hi
        invariant
            lo <= i <= hi <= s@.len(),
            trim_start(s@.subrange(lo as int, hi as int)) == trim_start(
                s@.subrange(i as int, hi as int),
            ),
            forall|j: int| lo <= j < i ==> is_ws(#[trigger] s@[j]),
        ensures
            lo <= i <= hi,
            trim_start(s@.subrange(lo as int, hi as int)) == s@.subrange(i as int, hi as int),
            forall|j: int| lo <= j < i ==> is_ws(#[trigger] s@[j]),
        decreases hi - i,
    {
        let b = s[i];
        if !(b == B_SPACE || (9 <= b && b <= 13)) {
            break;
        }
        proof {
            assert(s@.subrange(i as int, hi as int).skip(1) =~= s@.subrange(
                i as int + 1,
                hi as int,
            ));
        }
        i = i + 1;
    }
    i
}

/// End of the whitespace-trimmed region of `s[lo..hi]`.
pub fn trim_end_index(s: &[u8], lo: usize, hi: usize) -> (r: usize)
    requires
        lo <= hi <= s@.len(),
    ensures
        lo <= r <= hi,
        trim_end(s@.subrange(lo as int, hi as int)) == s@.subrange(lo as int, r as int),
        forall|j: int| r <= j < hi ==> is_ws(#[trigger] s@[j]),
{
    let mut i = hi;
    while i > lo
        invariant
            lo <= i <= hi <= s@.len(),
            trim_end(s@.subrange(lo as int, hi as int)) == trim_end(
                s@.subrange(lo as int, i as int),
            ),
            forall|j: int| i <= j < hi ==> is_ws(#[trigger] s@[j]),
        ensures
            lo <= i <= hi,
            trim_end(s@.subrange(lo as int, hi as int)) == s@.subrange(lo as int, i as int),
            forall|j: int| i <= j < hi ==> is_ws(#[trigger] s@[j]),
        decreases i,
    {
        let b = s[i - 1];
        if !(b == B_SPACE || (9 <= b && b <= 13)) {
            break;
        }
        proof {
            assert(s@.subrange(lo as int, i as int).drop_last() =~= s@.subrange(
                lo as int,
                i as int - 1,
            ));
        }
        i = i - 1;
    }
    i
}

} // verus!
