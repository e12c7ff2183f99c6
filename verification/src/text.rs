//! Decimal and hexadecimal text: the grammars and numeric values at the
//! specification level, executable parsing and formatting over them, and the
//! round-trip lemmas that relate the two directions.

use vstd::prelude::*;

verus! {

/// The lowercase character standing for a single base-16 digit value.
pub open spec fn hex_char_of(v: int) -> char {
    if v == 0 {
        '0'
    } else if v == 1 {
        '1'
    } else if v == 2 {
        '2'
    } else if v == 3 {
        '3'
    } else if v == 4 {
        '4'
    } else if v == 5 {
        '5'
    } else if v == 6 {
        '6'
    } else if v == 7 {
        '7'
    } else if v == 8 {
        '8'
    } else if v == 9 {
        '9'
    } else if v == 10 {
        'a'
    } else if v == 11 {
        'b'
    } else if v == 12 {
        'c'
    } else if v == 13 {
        'd'
    } else if v == 14 {
        'e'
    } else {
        'f'
    }
}

pub open spec fn is_dec_digit(c: char) -> bool {
    '0' as int <= c as int && c as int <= '9' as int
}

pub open spec fn dec_digit_val(c: char) -> int {
    c as int - '0' as int
}

pub open spec fn all_dec_digits(s: Seq<char>) -> bool {
    forall|i: int| 0 <= i < s.len() ==> is_dec_digit(#[trigger] s[i])
}

/// The numeric value of a digit string, most significant digit first.
pub open spec fn dec_val(s: Seq<char>) -> int
    decreases s.len(),
{
    if s.len() == 0 {
        0
    } else {
        10 * dec_val(s.drop_last()) + dec_digit_val(s.last())
    }
}

/// A non-empty, all-digit string whose value is at most `max`: exactly the
/// strings the bounded decimal parser accepts.
pub open spec fn is_dec_bounded(s: Seq<char>, max: int) -> bool {
    s.len() > 0 && all_dec_digits(s) && dec_val(s) <= max
}

/// A digit string with no redundant leading zero: the form the decimal
/// formatter produces.
pub open spec fn is_canonical_dec(s: Seq<char>) -> bool {
    &&& s.len() > 0
    &&& all_dec_digits(s)
    &&& (s.len() > 1 ==> s[0] != '0')
}

/// The canonical decimal rendering of a non-negative integer.
pub open spec fn dec_str_of(v: int) -> Seq<char>
    decreases v,
{
    if v <= 9 {
        seq![hex_char_of(v)]
    } else {
        dec_str_of(v / 10).push(hex_char_of(v % 10))
    }
}

pub open spec fn is_hex_digit(c: char) -> bool {
    ||| is_dec_digit(c)
    ||| 'a' as int <= c as int && c as int <= 'f' as int
    ||| 'A' as int <= c as int && c as int <= 'F' as int
}

pub open spec fn hex_val(c: char) -> int {
    if is_dec_digit(c) {
        c as int - '0' as int
    } else if 'a' as int <= c as int && c as int <= 'f' as int {
        10 + c as int - 'a' as int
    } else {
        10 + c as int - 'A' as int
    }
}

pub open spec fn all_hex_digits(s: Seq<char>) -> bool {
    forall|i: int| 0 <= i < s.len() ==> is_hex_digit(#[trigger] s[i])
}

/// The lowercase hex rendering of a byte string, two characters per byte,
/// high nibble first.
pub open spec fn hex_str_of(b: Seq<u8>) -> Seq<char> {
    Seq::new(
        b.len() * 2,
        |i: int|
            if i % 2 == 0 {
                hex_char_of(b[i / 2] as int / 16)
            } else {
                hex_char_of(b[i / 2] as int % 16)
            },
    )
}

/// The bytes denoted by an even-length hex digit string.
pub open spec fn bytes_of_hex(s: Seq<char>) -> Seq<u8> {
    Seq::new(s.len() / 2, |i: int| (16 * hex_val(s[2 * i]) + hex_val(s[2 * i + 1])) as u8)
}

/// Hex digits mapped to their lowercase forms, digit by digit.
pub open spec fn lower_hex(s: Seq<char>) -> Seq<char> {
    Seq::new(s.len(), |i: int| hex_char_of(hex_val(s[i])))
}

pub proof fn lemma_hex_char_val(v: int)
    requires
        0 <= v < 16,
    ensures
        is_hex_digit(hex_char_of(v)),
        hex_val(hex_char_of(v)) == v,
        v <= 9 ==> is_dec_digit(hex_char_of(v)) && dec_digit_val(hex_char_of(v)) == v,
        hex_char_of(v) != ':',
        v >= 1 ==> hex_char_of(v) != '0',
{
}

/// A decimal digit is its own lowercase hex form.
pub proof fn lemma_hex_char_of_dec_val(c: char)
    requires
        is_dec_digit(c),
    ensures
        hex_char_of(dec_digit_val(c)) == c,
        is_hex_digit(c),
        hex_val(c) == dec_digit_val(c),
{
}

pub proof fn lemma_hex_val_bounds(c: char)
    requires
        is_hex_digit(c),
    ensures
        0 <= hex_val(c) < 16,
{
}

pub proof fn lemma_dec_val_nonneg(s: Seq<char>)
    requires
        all_dec_digits(s),
    ensures
        dec_val(s) >= 0,
    decreases s.len(),
{
    if s.len() > 0 {
        assert forall|i: int| 0 <= i < s.drop_last().len() implies is_dec_digit(
            #[trigger] s.drop_last()[i],
        ) by {
            assert(s.drop_last()[i] == s[i]);
        }
        lemma_dec_val_nonneg(s.drop_last());
    }
}

/// Reading one more digit multiplies the prefix value by ten and adds it.
pub proof fn lemma_dec_val_take_succ(s: Seq<char>, k: int)
    requires
        0 <= k < s.len(),
    ensures
        dec_val(s.take(k + 1)) == 10 * dec_val(s.take(k)) + dec_digit_val(s[k]),
{
    assert(s.take(k + 1).drop_last() =~= s.take(k));
    assert(s.take(k + 1).last() == s[k]);
}

/// The value of a digit string is at least the value of any of its prefixes.
pub proof fn lemma_dec_val_take_monotone(s: Seq<char>, k: int)
    requires
        all_dec_digits(s),
        0 <= k <= s.len(),
    ensures
        dec_val(s.take(k)) <= dec_val(s),
    decreases s.len() - k,
{
    assert forall|i: int| 0 <= i < s.take(k).len() implies is_dec_digit(#[trigger] s.take(k)[i]) by {
        assert(s.take(k)[i] == s[i]);
    }
    if k == s.len() {
        assert(s.take(k) =~= s);
    } else {
        lemma_dec_val_take_succ(s, k);
        lemma_dec_val_nonneg(s.take(k));
        lemma_dec_val_take_monotone(s, k + 1);
    }
}

/// The decimal formatter emits a canonical string denoting its input.
pub proof fn lemma_dec_str_of_val(v: int)
    requires
        v >= 0,
    ensures
        is_canonical_dec(dec_str_of(v)),
        dec_val(dec_str_of(v)) == v,
        v >= 1 ==> dec_str_of(v)[0] != '0',
    decreases v,
{
    if v <= 9 {
        lemma_hex_char_val(v);
        let s = seq![hex_char_of(v)];
        assert(s.drop_last() =~= Seq::<char>::empty());
        assert(dec_val(Seq::<char>::empty()) == 0);
        assert(dec_val(s) == v);
    } else {
        lemma_dec_str_of_val(v / 10);
        lemma_hex_char_val(v % 10);
        let p = dec_str_of(v / 10);
        let s = p.push(hex_char_of(v % 10));
        assert(s.drop_last() =~= p);
        assert(dec_val(s) == 10 * (v / 10) + (v % 10));
        assert forall|i: int| 0 <= i < s.len() implies is_dec_digit(#[trigger] s[i]) by {
            if i < p.len() {
                assert(s[i] == p[i]);
            }
        }
        assert(s[0] == p[0]);
    }
}

/// A canonical digit string is the formatter's output for its own value:
/// canonical decimal renderings are unique.
pub proof fn lemma_canonical_dec_unique(s: Seq<char>)
    requires
        is_canonical_dec(s),
    ensures
        dec_str_of(dec_val(s)) == s,
    decreases s.len(),
{
    lemma_dec_val_nonneg(s);
    let v = dec_val(s);
    if s.len() == 1 {
        assert(s.drop_last() =~= Seq::<char>::empty());
        assert(dec_val(Seq::<char>::empty()) == 0);
        assert(v == dec_digit_val(s[0]));
        lemma_hex_char_of_dec_val(s[0]);
        assert(dec_str_of(v) =~= s);
    } else {
        let p = s.drop_last();
        assert forall|i: int| 0 <= i < p.len() implies is_dec_digit(#[trigger] p[i]) by {
            assert(p[i] == s[i]);
        }
        assert(p[0] == s[0]);
        // The leading digit is not zero, so the prefix denotes at least one.
        lemma_leading_nonzero_positive(p);
        lemma_dec_val_nonneg(p);
        assert(v == 10 * dec_val(p) + dec_digit_val(s.last()));
        assert(v / 10 == dec_val(p) && v % 10 == dec_digit_val(s.last())) by {
            assert(0 <= dec_digit_val(s.last()) < 10);
        }
        assert(v >= 10);
        lemma_canonical_dec_unique(p);
        lemma_hex_char_of_dec_val(s.last());
        assert(dec_str_of(v) == p.push(s.last()));
        assert(p.push(s.last()) =~= s);
    }
}

/// A digit string whose first digit is not zero denotes a positive number.
pub proof fn lemma_leading_nonzero_positive(s: Seq<char>)
    requires
        all_dec_digits(s),
        s.len() > 0,
        s[0] != '0',
    ensures
        dec_val(s) >= 1,
    decreases s.len(),
{
    if s.len() == 1 {
        assert(s.drop_last() =~= Seq::<char>::empty());
        assert(dec_val(Seq::<char>::empty()) == 0);
        assert(dec_digit_val(s[0]) >= 1);
    } else {
        let p = s.drop_last();
        assert forall|i: int| 0 <= i < p.len() implies is_dec_digit(#[trigger] p[i]) by {
            assert(p[i] == s[i]);
        }
        assert(p[0] == s[0]);
        lemma_leading_nonzero_positive(p);
        assert(is_dec_digit(s[s.len() - 1]));
        assert(dec_val(s) == 10 * dec_val(p) + dec_digit_val(s.last()));
    }
}

/// Formatting bytes as hex and reading the digits back yields the same bytes.
pub proof fn lemma_hex_parse_format(b: Seq<u8>)
    ensures
        hex_str_of(b).len() == 2 * b.len(),
        all_hex_digits(hex_str_of(b)),
        bytes_of_hex(hex_str_of(b)) == b,
{
    let h = hex_str_of(b);
    assert forall|i: int| 0 <= i < h.len() implies is_hex_digit(#[trigger] h[i]) by {
        lemma_hex_char_val(b[i / 2] as int / 16);
        lemma_hex_char_val(b[i / 2] as int % 16);
    }
    assert forall|i: int| 0 <= i < b.len() implies bytes_of_hex(h)[i] == b[i] by {
        lemma_hex_char_val(b[i] as int / 16);
        lemma_hex_char_val(b[i] as int % 16);
        assert(h[2 * i] == hex_char_of(b[i] as int / 16));
        assert(h[2 * i + 1] == hex_char_of(b[i] as int % 16));
        assert(16 * (b[i] as int / 16) + b[i] as int % 16 == b[i] as int);
    }
    assert(bytes_of_hex(h) =~= b);
}

/// Reading an even-length hex string and formatting the bytes back yields the
/// same string with every digit lowercased.
pub proof fn lemma_hex_format_parse(s: Seq<char>)
    requires
        all_hex_digits(s),
        s.len() % 2 == 0,
    ensures
        hex_str_of(bytes_of_hex(s)) == lower_hex(s),
{
    let b = bytes_of_hex(s);
    assert(b.len() == s.len() / 2);
    assert forall|i: int| 0 <= i < s.len() implies hex_str_of(b)[i] == lower_hex(s)[i] by {
        let k = i / 2;
        lemma_hex_val_bounds(s[2 * k]);
        lemma_hex_val_bounds(s[2 * k + 1]);
        let hi = hex_val(s[2 * k]);
        let lo = hex_val(s[2 * k + 1]);
        assert(b[k] as int == 16 * hi + lo);
        assert((16 * hi + lo) / 16 == hi && (16 * hi + lo) % 16 == lo);
        if i % 2 == 0 {
            assert(i == 2 * k);
        } else {
            assert(i == 2 * k + 1);
        }
    }
    assert(hex_str_of(b) =~= lower_hex(s));
}

/// Index of the first ':' in `s`, or `s.len()` when there is none.
pub open spec fn first_colon(s: Seq<char>) -> int
    decreases s.len(),
{
    if s.len() == 0 {
        0
    } else if s[0] == ':' {
        0
    } else {
        1 + first_colon(s.skip(1))
    }
}

pub proof fn lemma_first_colon(s: Seq<char>)
    ensures
        0 <= first_colon(s) <= s.len(),
        first_colon(s) < s.len() ==> s[first_colon(s)] == ':',
        forall|j: int| 0 <= j < first_colon(s) ==> s[j] != ':',
    decreases s.len(),
{
    if s.len() == 0 || s[0] == ':' {
    } else {
        lemma_first_colon(s.skip(1));
        let fc = first_colon(s);
        assert forall|j: int| 0 <= j < fc implies s[j] != ':' by {
            if j > 0 {
                assert(s.skip(1)[j - 1] == s[j]);
            }
        }
        if fc < s.len() {
            assert(s.skip(1)[fc - 1] == s[fc]);
        }
    }
}

/// The position of the first colon is determined by the characterization the
/// scanning loop establishes.
pub proof fn lemma_first_colon_unique(s: Seq<char>, k: int)
    requires
        0 <= k <= s.len(),
        forall|j: int| 0 <= j < k ==> s[j] != ':',
        k < s.len() ==> s[k] == ':',
    ensures
        first_colon(s) == k,
{
    lemma_first_colon(s);
}

/// Finds the first ':' at or after `from`; returns the string length when
/// there is none.
pub fn find_colon(s: &str, from: usize) -> (r: usize)
    requires
        from <= s@.len(),
    ensures
        from <= r <= s@.len(),
        forall|j: int| from <= j < r ==> s@[j] != ':',
        r < s@.len() ==> s@[r as int] == ':',
{
    let n = s.unicode_len();
    let mut i = from;
    while i < n
        invariant
            from <= i <= n,
            n == s@.len(),
            forall|j: int| from <= j < i ==> s@[j] != ':',
        decreases n - i,
    {
        if s.get_char(i) == ':' {
            return i;
        }
        i = i + 1;
    }
    i
}

/// Appends the single lowercase digit character for `v`, base 16.
pub fn push_digit(out: &mut String, v: u8)
    requires
        v < 16,
    ensures
        final(out)@ == old(out)@.push(hex_char_of(v as int)),
{
    let t: &str = if v == 0 {
        "0"
    } else if v == 1 {
        "1"
    } else if v == 2 {
        "2"
    } else if v == 3 {
        "3"
    } else if v == 4 {
        "4"
    } else if v == 5 {
        "5"
    } else if v == 6 {
        "6"
    } else if v == 7 {
        "7"
    } else if v == 8 {
        "8"
    } else if v == 9 {
        "9"
    } else if v == 10 {
        "a"
    } else if v == 11 {
        "b"
    } else if v == 12 {
        "c"
    } else if v == 13 {
        "d"
    } else if v == 14 {
        "e"
    } else {
        "f"
    };
    proof {
        reveal_strlit("0");
        reveal_strlit("1");
        reveal_strlit("2");
        reveal_strlit("3");
        reveal_strlit("4");
        reveal_strlit("5");
        reveal_strlit("6");
        reveal_strlit("7");
        reveal_strlit("8");
        reveal_strlit("9");
        reveal_strlit("a");
        reveal_strlit("b");
        reveal_strlit("c");
        reveal_strlit("d");
        reveal_strlit("e");
        reveal_strlit("f");
    }
    out.append(t);
    proof {
        assert(out@ =~= old(out)@.push(hex_char_of(v as int)));
    }
}

/// Appends the canonical decimal rendering of `v`.
pub fn push_dec(out: &mut String, v: u128)
    ensures
        final(out)@ == old(out)@ + dec_str_of(v as int),
    decreases v,
{
    if v <= 9 {
        push_digit(out, v as u8);
        proof {
            assert(out@ =~= old(out)@ + dec_str_of(v as int));
        }
    } else {
        push_dec(out, v / 10);
        push_digit(out, (v % 10) as u8);
        proof {
            assert(out@ =~= old(out)@ + dec_str_of(v as int));
        }
    }
}

/// Appends the lowercase hex rendering of `bytes`.
pub fn push_hex(out: &mut String, bytes: &Vec<u8>)
    ensures
        final(out)@ == old(out)@ + hex_str_of(bytes@),
{
    let n = bytes.len();
    let mut i: usize = 0;
    while i < n
        invariant
            i <= n,
            n == bytes@.len(),
            out@ == old(out)@ + hex_str_of(bytes@.take(i as int)),
        decreases n - i,
    {
        let b = bytes[i];
        push_digit(out, b / 16);
        push_digit(out, b % 16);
        proof {
            let pre = hex_str_of(bytes@.take(i as int));
            let post = hex_str_of(bytes@.take(i + 1 as int));
            assert(post =~= pre.push(hex_char_of(b as int / 16)).push(hex_char_of(b as int % 16)));
            assert(out@ =~= old(out)@ + post);
        }
        i = i + 1;
    }
    proof {
        assert(bytes@.take(n as int) =~= bytes@);
    }
}

/// The value of a single hex digit character, when it is one.
pub fn hex_digit_val(c: char) -> (r: Option<u8>)
    ensures
        match r {
            Some(h) => is_hex_digit(c) && h as int == hex_val(c) && h < 16,
            None => !is_hex_digit(c),
        },
{
    let u: u32 = c as u32;
    if '0' as u32 <= u && u <= '9' as u32 {
        Some((u - '0' as u32) as u8)
    } else if 'a' as u32 <= u && u <= 'f' as u32 {
        Some((u - 'a' as u32 + 10) as u8)
    } else if 'A' as u32 <= u && u <= 'F' as u32 {
        Some((u - 'A' as u32 + 10) as u8)
    } else {
        None
    }
}

/// Parses `s[from..to]` as an unsigned decimal number of value at most `max`,
/// exactly when that range is non-empty, all digits, and within the bound.
pub fn parse_dec_range(s: &str, from: usize, to: usize, max: u64) -> (r: Option<u64>)
    requires
        from <= to <= s@.len(),
    ensures
        match r {
            Some(v) => is_dec_bounded(s@.subrange(from as int, to as int), max as int) && v as int
                == dec_val(s@.subrange(from as int, to as int)) && v <= max,
            None => !is_dec_bounded(s@.subrange(from as int, to as int), max as int),
        },
{
    let ghost d = s@.subrange(from as int, to as int);
    if from == to {
        return None;
    }
    let mut v: u64 = 0;
    let mut i: usize = from;
    while i < to
        invariant
            from <= i <= to <= s@.len(),
            d == s@.subrange(from as int, to as int),
            all_dec_digits(d.take(i - from)),
            v <= max,
            v as int == dec_val(d.take(i - from)),
        decreases to - i,
    {
        let c = s.get_char(i);
        proof {
            assert(d[i - from] == s@[i as int]);
        }
        let u: u32 = c as u32;
        if u < '0' as u32 || u > '9' as u32 {
            proof {
                assert(!is_dec_digit(d[i - from]));
            }
            return None;
        }
        let dv: u64 = (u - '0' as u32) as u64;
        let fits: bool = if dv > max {
            false
        } else {
            v <= (max - dv) / 10
        };
        proof {
            lemma_dec_val_take_succ(d, i - from);
        }
        if !fits {
            proof {
                assert(10 * (v as int) + dv as int > max);
                if all_dec_digits(d) && dec_val(d) <= max {
                    lemma_dec_val_take_monotone(d, i - from + 1);
                }
            }
            return None;
        }
        proof {
            assert(10 * (v as int) + dv as int <= max);
        }
        v = v * 10 + dv;
        assert forall|j: int| 0 <= j < i + 1 - from implies is_dec_digit(
            #[trigger] d.take(i + 1 - from)[j],
        ) by {
            assert(d.take(i + 1 - from)[j] == d[j]);
            if j < i - from {
                assert(d.take(i - from)[j] == d[j]);
            }
        }
        i = i + 1;
    }
    proof {
        assert(d.take(to - from) =~= d);
    }
    Some(v)
}

/// Parses `s[from..to]` as an even-length hex string into its bytes.
pub fn parse_hex_range(s: &str, from: usize, to: usize) -> (r: Option<Vec<u8>>)
    requires
        from <= to <= s@.len(),
        (to - from) % 2 == 0,
    ensures
        match r {
            Some(b) => all_hex_digits(s@.subrange(from as int, to as int)) && b@ == bytes_of_hex(
                s@.subrange(from as int, to as int),
            ),
            None => !all_hex_digits(s@.subrange(from as int, to as int)),
        },
{
    let ghost d = s@.subrange(from as int, to as int);
    let mut out: Vec<u8> = Vec::new();
    let mut i: usize = from;
    while i < to
        invariant
            from <= i <= to <= s@.len(),
            (to - from) % 2 == 0,
            (i - from) % 2 == 0,
            d == s@.subrange(from as int, to as int),
            all_hex_digits(d.take(i - from)),
            out@ == bytes_of_hex(d.take(i - from)),
        decreases to - i,
    {
        let chi = s.get_char(i);
        let clo = s.get_char(i + 1);
        proof {
            assert(d[i - from] == s@[i as int]);
            assert(d[i + 1 - from] == s@[i + 1 as int]);
        }
        let hi = match hex_digit_val(chi) {
            Some(h) => h,
            None => {
                proof {
                    assert(!is_hex_digit(d[i - from]));
                }
                return None;
            },
        };
        let lo = match hex_digit_val(clo) {
            Some(h) => h,
            None => {
                proof {
                    assert(!is_hex_digit(d[i + 1 - from]));
                }
                return None;
            },
        };
        out.push(16 * hi + lo);
        proof {
            let k = i + 2 - from;
            assert forall|j: int| 0 <= j < k implies is_hex_digit(#[trigger] d.take(k)[j]) by {
                assert(d.take(k)[j] == d[j]);
                if j < i - from {
                    assert(d.take(i - from)[j] == d[j]);
                }
            }
            assert(bytes_of_hex(d.take(k)) =~= bytes_of_hex(d.take(i - from)).push(
                (16 * hi + lo) as u8,
            )) by {
                assert forall|j: int| 0 <= j < k / 2 implies bytes_of_hex(d.take(k))[j]
                    == bytes_of_hex(d.take(i - from)).push((16 * hi + lo) as u8)[j] by {
                    assert(d.take(k)[2 * j] == d[2 * j]);
                    assert(d.take(k)[2 * j + 1] == d[2 * j + 1]);
                    if j < (i - from) / 2 {
                        assert(d.take(i - from)[2 * j] == d[2 * j]);
                        assert(d.take(i - from)[2 * j + 1] == d[2 * j + 1]);
                    }
                }
            }
        }
        i = i + 2;
    }
    proof {
        assert(d.take(to - from) =~= d);
    }
    Some(out)
}

} // verus!
