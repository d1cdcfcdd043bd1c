use vstd::prelude::*;

use vstd::arithmetic::div_mod::lemma_fundamental_div_mod;

verus! {

// ---------------------------------------------------------------------------
// Character classes. All classification is by code point, so the executable
// tests and the specification coincide literally.
// ---------------------------------------------------------------------------
/// Whitespace accepted around a color string and around each field:
/// space, tab, line feed, carriage return.
pub open spec fn is_ws(c: char) -> bool {
    c as u32 == 32 || c as u32 == 9 || c as u32 == 10 || c as u32 == 13
}

pub open spec fn is_dig(c: char) -> bool {
    48 <= c as u32 <= 57
}

/// Numeric value of a decimal digit.
pub open spec fn dval(c: char) -> int {
    c as u32 - 48
}

/// The decimal digit character for `0 <= d <= 9`.
pub open spec fn dchar(d: int) -> char {
    if d == 0 {
        '0'
    } else if d == 1 {
        '1'
    } else if d == 2 {
        '2'
    } else if d == 3 {
        '3'
    } else if d == 4 {
        '4'
    } else if d == 5 {
        '5'
    } else if d == 6 {
        '6'
    } else if d == 7 {
        '7'
    } else if d == 8 {
        '8'
    } else {
        '9'
    }
}

/// Case-insensitive match of `c` against a lower-case ASCII letter.
pub open spec fn lce(c: char, lower: char) -> bool {
    c == lower || c as u32 + 32 == lower as u32
}

pub open spec fn all_digits(s: Seq<char>) -> bool {
    forall|i: int| 0 <= i < s.len() ==> is_dig(#[trigger] s[i])
}

/// Value of a digit string read in base ten.
pub open spec fn dec_val(s: Seq<char>) -> int
    decreases s.len(),
{
    if s.len() == 0 {
        0
    } else {
        dec_val(s.drop_last()) * 10 + dval(s.last())
    }
}

/// The canonical decimal rendering of `n >= 0` (no sign, no leading zero
/// except for zero itself).
pub open spec fn dec_str(n: int) -> Seq<char>
    decreases n,
{
    if n < 10 {
        seq![dchar(n)]
    } else {
        dec_str(n / 10).push(dchar(n % 10))
    }
}

/// A numeric field: at least one digit, digits only, and a value that fits
/// a 32-bit channel word.
pub open spec fn spec_num(s: Seq<char>) -> Option<u32> {
    if s.len() >= 1 && all_digits(s) && dec_val(s) <= 0xffff_ffff {
        Some(dec_val(s) as u32)
    } else {
        None
    }
}

// ---------------------------------------------------------------------------
// Hexadecimal digits. `hval` yields 16 for a non-digit, so `hval(c) < 16`
// is the class test.
// ---------------------------------------------------------------------------
/// Value of a hexadecimal digit, either case; 16 where `c` is none.
pub open spec fn hval(c: char) -> int {
    let u = c as u32;
    if 48 <= u <= 57 {
        u - 48
    } else if 97 <= u <= 102 {
        u - 87
    } else if 65 <= u <= 70 {
        u - 55
    } else {
        16
    }
}

pub open spec fn all_hex(s: Seq<char>) -> bool {
    forall|i: int| 0 <= i < s.len() ==> hval(#[trigger] s[i]) < 16
}

/// The lower-case hexadecimal digit character for `0 <= d <= 15`.
pub open spec fn hchar(d: int) -> char {
    if d < 10 {
        dchar(d)
    } else if d == 10 {
        'a'
    } else if d == 11 {
        'b'
    } else if d == 12 {
        'c'
    } else if d == 13 {
        'd'
    } else if d == 14 {
        'e'
    } else {
        'f'
    }
}

/// The two lower-case hexadecimal digits of a byte.
pub open spec fn hpair(v: int) -> Seq<char> {
    seq![hchar(v / 16), hchar(v % 16)]
}

/// The byte at digit pair `i` of a hexadecimal digit string.
pub open spec fn hbyte(s: Seq<char>, i: int) -> u32 {
    (16 * hval(s[2 * i]) + hval(s[2 * i + 1])) as u32
}

pub(crate) fn hval_exec(c: char) -> (r: u32)
    ensures
        r as int == hval(c),
{
    let u: u32 = c as u32;
    if 48 <= u && u <= 57 {
        u - 48
    } else if 97 <= u && u <= 102 {
        u - 87
    } else if 65 <= u && u <= 70 {
        u - 55
    } else {
        16
    }
}

/// Appends the lower-case hexadecimal digit for `d`.
pub(crate) fn push_hex_digit(out: &mut String, d: u32)
    requires
        d < 16,
    ensures
        final(out)@ == old(out)@ + seq![hchar(d as int)],
{
    if d < 10 {
        push_digit(out, d);
    } else {
        let lit: &str = if d == 10 {
            "a"
        } else if d == 11 {
            "b"
        } else if d == 12 {
            "c"
        } else if d == 13 {
            "d"
        } else if d == 14 {
            "e"
        } else {
            "f"
        };
        proof {
            reveal_strlit("a");
            reveal_strlit("b");
            reveal_strlit("c");
            reveal_strlit("d");
            reveal_strlit("e");
            reveal_strlit("f");
            assert(lit@ =~= seq![hchar(d as int)]);
        }
        out.append(lit);
    }
}

/// Appends the two hexadecimal digits of a byte.
pub(crate) fn push_hex_byte(out: &mut String, v: u32)
    requires
        v <= 255,
    ensures
        final(out)@ == old(out)@ + hpair(v as int),
{
    push_hex_digit(out, v / 16);
    push_hex_digit(out, v % 16);
    proof {
        assert(old(out)@ + seq![hchar(v as int / 16)] + seq![hchar(v as int % 16)] =~= old(out)@
            + hpair(v as int));
    }
}

// ---------------------------------------------------------------------------
// Trimming.
// ---------------------------------------------------------------------------
pub open spec fn ltrim(s: Seq<char>) -> Seq<char>
    decreases s.len(),
{
    if s.len() > 0 && is_ws(s[0]) {
        ltrim(s.drop_first())
    } else {
        s
    }
}

pub open spec fn rtrim(s: Seq<char>) -> Seq<char>
    decreases s.len(),
{
    if s.len() > 0 && is_ws(s.last()) {
        rtrim(s.drop_last())
    } else {
        s
    }
}

/// `s` with leading and trailing whitespace removed.
pub open spec fn strim(s: Seq<char>) -> Seq<char> {
    rtrim(ltrim(s))
}

/// A string whose ends are not whitespace trims to itself.
pub proof fn lemma_strim_id(s: Seq<char>)
    requires
        s.len() > 0,
        !is_ws(s[0]),
        !is_ws(s.last()),
    ensures
        strim(s) == s,
{
}

// ---------------------------------------------------------------------------
// Splitting on commas. Defined one character at a time so that both the
// executable splitter and the round-trip proofs unfold it directly.
// ---------------------------------------------------------------------------
/// The comma-separated fields of `s`; always at least one field, and an
/// empty field for each empty stretch between commas.
pub open spec fn split_commas(s: Seq<char>) -> Seq<Seq<char>>
    decreases s.len(),
{
    if s.len() == 0 {
        seq![Seq::<char>::empty()]
    } else if s[0] as u32 == 44 {
        seq![Seq::<char>::empty()] + split_commas(s.drop_first())
    } else {
        let rest = split_commas(s.drop_first());
        seq![seq![s[0]] + rest[0]] + rest.drop_first()
    }
}

pub open spec fn no_comma(s: Seq<char>) -> bool {
    forall|i: int| 0 <= i < s.len() ==> (#[trigger] s[i]) as u32 != 44
}

pub proof fn lemma_split_whole(s: Seq<char>)
    requires
        no_comma(s),
    ensures
        split_commas(s) == seq![s],
    decreases s.len(),
{
    if s.len() == 0 {
        assert(split_commas(s) =~~= seq![s]);
    } else {
        assert(s[0] as u32 != 44);
        lemma_split_whole(s.drop_first());
        assert(seq![s[0]] + s.drop_first() =~= s);
        assert(split_commas(s) =~~= seq![s]);
    }
}

/// Splitting `a ++ "," ++ rest` where `a` is comma-free peels off `a`.
pub proof fn lemma_split_around(a: Seq<char>, rest: Seq<char>)
    requires
        no_comma(a),
    ensures
        split_commas(a + seq![','] + rest) == seq![a] + split_commas(rest),
    decreases a.len(),
{
    let s = a + seq![','] + rest;
    if a.len() == 0 {
        assert(s[0] == ',');
        assert(',' as u32 == 44);
        assert(s.drop_first() =~= rest);
        assert(split_commas(s) =~~= seq![a] + split_commas(rest));
    } else {
        assert(s[0] == a[0]);
        assert(s.drop_first() =~= a.drop_first() + seq![','] + rest);
        lemma_split_around(a.drop_first(), rest);
        let r = split_commas(s.drop_first());
        assert(r == seq![a.drop_first()] + split_commas(rest));
        assert(r[0] == a.drop_first());
        assert(seq![s[0]] + r[0] =~= a);
        assert(r.drop_first() =~= split_commas(rest));
        assert(split_commas(s) =~~= seq![a] + split_commas(rest));
    }
}

// ---------------------------------------------------------------------------
// Fields.
// ---------------------------------------------------------------------------
/// A parsed integer field: trimmed, one optional trailing percent sign where
/// the field is percent-valued, then a digit string that fits 32 bits.
pub open spec fn spec_field_u32(s: Seq<char>, pct: bool) -> Option<u32> {
    let t = strim(s);
    let u = if pct && t.len() > 0 && t.last() as u32 == 37 {
        t.drop_last()
    } else {
        t
    };
    spec_num(u)
}

// ---------------------------------------------------------------------------
// Decimal rendering and its inverse.
// ---------------------------------------------------------------------------
/// `dec_str(n)` is a nonempty digit string and reads back as `n`.
pub proof fn lemma_dec_str_val(n: int)
    requires
        0 <= n,
    ensures
        all_digits(dec_str(n)),
        dec_str(n).len() >= 1,
        dec_val(dec_str(n)) == n,
    decreases n,
{
    if n < 10 {
        let s = dec_str(n);
        assert(s =~= seq![dchar(n)]);
        assert(is_dig(dchar(n)));
        assert(s.len() == 1);
        assert(s.last() == dchar(n));
        assert(s.drop_last() =~= Seq::<char>::empty());
        assert(dec_val(s.drop_last()) == 0);
        assert(dec_val(s) == 0 * 10 + dval(dchar(n)));
        assert(dval(dchar(n)) == n);
    } else {
        lemma_dec_str_val(n / 10);
        let p = dec_str(n / 10);
        let s = dec_str(n);
        assert(s == p.push(dchar(n % 10)));
        assert(s.drop_last() =~= p);
        assert(s.last() == dchar(n % 10));
        assert(is_dig(dchar(n % 10)) && dval(dchar(n % 10)) == n % 10);
        assert(forall|i: int| 0 <= i < s.len() ==> is_dig(#[trigger] s[i])) by {
            assert(forall|i: int| 0 <= i < p.len() ==> is_dig(#[trigger] p[i]));
            assert(forall|i: int| 0 <= i < s.len() && i < p.len() ==> s[i] == p[i]);
        }
        lemma_fundamental_div_mod(n, 10);
        assert(dec_val(s) == dec_val(p) * 10 + dval(s.last()));
    }
}

/// Digit prefixes never read back larger than the whole string.
pub proof fn lemma_dec_val_prefix_le(s: Seq<char>, j: int)
    requires
        all_digits(s),
        0 <= j <= s.len(),
    ensures
        dec_val(s.take(j)) <= dec_val(s),
        dec_val(s) >= 0,
    decreases s.len(),
{
    if s.len() == 0 {
        assert(s.take(j) =~= s);
    } else if j == s.len() {
        assert(s.take(j) =~= s);
        lemma_dec_val_prefix_le(s.drop_last(), s.len() - 1);
        assert(is_dig(s.last()));
    } else {
        let p = s.drop_last();
        assert(all_digits(p));
        lemma_dec_val_prefix_le(p, j);
        assert(s.take(j) =~= p.take(j));
        assert(is_dig(s.last()));
        assert(dec_val(s) == dec_val(p) * 10 + dval(s.last()));
        assert(dec_val(p) * 10 >= dec_val(p)) by (nonlinear_arith)
            requires
                dec_val(p) >= 0,
        ;
    }
}

// ---------------------------------------------------------------------------
// Executable character handling.
// ---------------------------------------------------------------------------
/// The characters of `s`, for index-based scanning.
pub(crate) fn to_chars(s: &str) -> (cs: Vec<char>)
    ensures
        cs@ == s@,
{
    let n: usize = s.unicode_len();
    let mut cs: Vec<char> = Vec::new();
    let mut i: usize = 0;
    while i < n
        invariant
            0 <= i <= n,
            n == s@.len(),
            cs@ =~= s@.take(i as int),
        decreases n - i,
    {
        let c: char = s.get_char(i);
        cs.push(c);
        proof {
            assert(cs@ =~= s@.take(i + 1));
        }
        i = i + 1;
    }
    proof {
        assert(s@.take(n as int) =~= s@);
    }
    cs
}

pub(crate) fn is_ws_exec(c: char) -> (r: bool)
    ensures
        r == is_ws(c),
{
    let u: u32 = c as u32;
    u == 32 || u == 9 || u == 10 || u == 13
}

/// Trims `cs[lo..hi]`: returns the subrange holding its `strim`.
pub(crate) fn trim_range(cs: &Vec<char>, lo: usize, hi: usize) -> (r: (usize, usize))
    requires
        lo <= hi <= cs@.len(),
    ensures
        lo <= r.0 <= r.1 <= hi,
        cs@.subrange(r.0 as int, r.1 as int) == strim(cs@.subrange(lo as int, hi as int)),
{
    let ghost orig = cs@.subrange(lo as int, hi as int);
    let mut a: usize = lo;
    while a < hi && is_ws_exec(cs[a])
        invariant
            lo <= a <= hi <= cs@.len(),
            ltrim(orig) == ltrim(cs@.subrange(a as int, hi as int)),
        decreases hi - a,
    {
        proof {
            let cur = cs@.subrange(a as int, hi as int);
            assert(cur.drop_first() =~= cs@.subrange(a + 1, hi as int));
        }
        a = a + 1;
    }
    proof {
        assert(ltrim(orig) == cs@.subrange(a as int, hi as int));
    }
    let mut b: usize = hi;
    while b > a && is_ws_exec(cs[b - 1])
        invariant
            lo <= a <= b <= hi <= cs@.len(),
            ltrim(orig) == cs@.subrange(a as int, hi as int),
            rtrim(cs@.subrange(a as int, hi as int)) == rtrim(cs@.subrange(a as int, b as int)),
        decreases b - a,
    {
        proof {
            let cur = cs@.subrange(a as int, b as int);
            assert(cur.drop_last() =~= cs@.subrange(a as int, b - 1));
        }
        b = b - 1;
    }
    proof {
        assert(rtrim(cs@.subrange(a as int, b as int)) == cs@.subrange(a as int, b as int));
    }
    (a, b)
}

/// Splits `cs[lo..hi]` on commas; returns the field subranges.
pub(crate) fn split_exec(cs: &Vec<char>, lo: usize, hi: usize) -> (fs: Vec<(usize, usize)>)
    requires
        lo <= hi <= cs@.len(),
    ensures
        ({
            let ss = split_commas(cs@.subrange(lo as int, hi as int));
            &&& fs@.len() == ss.len()
            &&& fs@.len() >= 1
            &&& fs@[0].0 == lo
            &&& forall|i: int|
                0 <= i < fs@.len() ==> lo <= (#[trigger] fs@[i]).0 <= fs@[i].1 <= hi
                    && cs@.subrange(fs@[i].0 as int, fs@[i].1 as int) == ss[i]
        }),
    decreases hi - lo,
{
    let ghost s = cs@.subrange(lo as int, hi as int);
    if lo == hi {
        let mut fs: Vec<(usize, usize)> = Vec::new();
        fs.push((lo, lo));
        proof {
            assert(s =~= Seq::<char>::empty());
            assert(cs@.subrange(lo as int, lo as int) =~= Seq::<char>::empty());
        }
        fs
    } else if (cs[lo] as u32) == 44 {
        let mut fs = split_exec(cs, lo + 1, hi);
        fs.insert(0, (lo, lo));
        proof {
            assert(s[0] == cs@[lo as int]);
            assert(s.drop_first() =~= cs@.subrange(lo + 1, hi as int));
            assert(cs@.subrange(lo as int, lo as int) =~= Seq::<char>::empty());
            let ss = split_commas(s);
            let ss1 = split_commas(s.drop_first());
            assert(ss == seq![Seq::<char>::empty()] + ss1);
            assert forall|i: int| 0 <= i < fs@.len() implies lo <= (#[trigger] fs@[i]).0
                <= fs@[i].1 <= hi && cs@.subrange(fs@[i].0 as int, fs@[i].1 as int) == ss[i] by {
                if i > 0 {
                    assert(fs@[i] == fs@.subrange(1, fs@.len() as int)[i - 1]);
                    assert(ss[i] == ss1[i - 1]);
                }
            }
        }
        fs
    } else {
        let mut fs = split_exec(cs, lo + 1, hi);
        let f0: (usize, usize) = fs[0];
        let ghost fsold = fs@;
        fs.set(0, (lo, f0.1));
        proof {
            assert(s[0] == cs@[lo as int]);
            assert(s.drop_first() =~= cs@.subrange(lo + 1, hi as int));
            let ss = split_commas(s);
            let ss1 = split_commas(s.drop_first());
            assert(ss == seq![seq![s[0]] + ss1[0]] + ss1.drop_first());
            assert(cs@.subrange(lo as int, f0.1 as int) =~= seq![s[0]] + cs@.subrange(
                lo + 1,
                f0.1 as int,
            ));
            assert forall|i: int| 0 <= i < fs@.len() implies lo <= (#[trigger] fs@[i]).0
                <= fs@[i].1 <= hi && cs@.subrange(fs@[i].0 as int, fs@[i].1 as int) == ss[i] by {
                if i > 0 {
                    assert(fs@[i] == fsold[i]);
                    assert(ss[i] == ss1.drop_first()[i - 1]);
                    assert(ss1.drop_first()[i - 1] == ss1[i]);
                }
            }
        }
        fs
    }
}

/// Reads `cs[lo..hi]` as a digit string. `None`: not a nonempty digit
/// string. `Some(None)`: digits, but the value does not fit 32 bits.
pub(crate) fn digits_value(cs: &Vec<char>, lo: usize, hi: usize) -> (r: Option<Option<u32>>)
    requires
        lo <= hi <= cs@.len(),
    ensures
        ({
            let s = cs@.subrange(lo as int, hi as int);
            match r {
                None => !(s.len() >= 1 && all_digits(s)),
                Some(None) => s.len() >= 1 && all_digits(s) && dec_val(s) > 0xffff_ffff,
                Some(Some(v)) => s.len() >= 1 && all_digits(s) && dec_val(s) == v as int,
            }
        }),
{
    let ghost s = cs@.subrange(lo as int, hi as int);
    if lo == hi {
        return None;
    }
    let mut acc: u64 = 0;
    let mut i: usize = lo;
    while i < hi
        invariant
            lo <= i <= hi <= cs@.len(),
            s == cs@.subrange(lo as int, hi as int),
            acc <= 0xffff_ffff,
            all_digits(s.take(i - lo)),
            acc as int == dec_val(s.take(i - lo)),
        decreases hi - i,
    {
        let c: char = cs[i];
        let u: u32 = c as u32;
        proof {
            assert(s[i - lo] == cs@[i as int]);
            assert(s.take(i - lo + 1) =~= s.take(i - lo).push(s[i - lo]));
            assert(s.take(i - lo + 1).drop_last() =~= s.take(i - lo));
        }
        if !(48 <= u && u <= 57) {
            proof {
                assert(!is_dig(s[i - lo]));
            }
            return None;
        }
        let d: u64 = (u - 48) as u64;
        acc = acc * 10 + d;
        i = i + 1;
        if acc > 0xffff_ffff {
            let rest_ok: bool = all_digits_scan(cs, i, hi);
            proof {
                assert(dec_val(s.take(i - lo)) > 0xffff_ffff);
                if rest_ok {
                    assert forall|j: int| 0 <= j < s.len() implies is_dig(#[trigger] s[j]) by {
                        if j < i - lo {
                            assert(s.take(i - lo)[j] == s[j]);
                        } else {
                            assert(cs@.subrange(i as int, hi as int)[j - (i - lo)] == s[j]);
                        }
                    }
                    lemma_dec_val_prefix_le(s, i - lo);
                } else {
                    let jj = choose|j: int|
                        0 <= j < cs@.subrange(i as int, hi as int).len() && !is_dig(
                            #[trigger] cs@.subrange(i as int, hi as int)[j],
                        );
                    assert(cs@.subrange(i as int, hi as int)[jj] == s[jj + (i - lo)]);
                    assert(!is_dig(s[jj + (i - lo)]));
                }
            }
            return if rest_ok {
                Some(None)
            } else {
                None
            };
        }
    }
    proof {
        assert(s.take(hi - lo) =~= s);
    }
    Some(Some(acc as u32))
}

/// Checks that every character of `cs[lo..hi]` is a digit.
fn all_digits_scan(cs: &Vec<char>, lo: usize, hi: usize) -> (r: bool)
    requires
        lo <= hi <= cs@.len(),
    ensures
        ({
            let s = cs@.subrange(lo as int, hi as int);
            r == forall|i: int| 0 <= i < s.len() ==> is_dig(#[trigger] s[i])
        }),
{
    let ghost s = cs@.subrange(lo as int, hi as int);
    let mut i: usize = lo;
    while i < hi
        invariant
            lo <= i <= hi <= cs@.len(),
            s == cs@.subrange(lo as int, hi as int),
            forall|j: int| 0 <= j < i - lo ==> is_dig(#[trigger] s[j]),
        decreases hi - i,
    {
        let u: u32 = cs[i] as u32;
        proof {
            assert(s[i - lo] == cs@[i as int]);
        }
        if !(48 <= u && u <= 57) {
            return false;
        }
        i = i + 1;
    }
    true
}

/// Parses one integer field of `cs[lo..hi]`; see `spec_field_u32`.
pub(crate) fn parse_field(cs: &Vec<char>, lo: usize, hi: usize, pct: bool) -> (r: Option<u32>)
    requires
        lo <= hi <= cs@.len(),
    ensures
        r == spec_field_u32(cs@.subrange(lo as int, hi as int), pct),
{
    let ghost s = cs@.subrange(lo as int, hi as int);
    let (a, b0) = trim_range(cs, lo, hi);
    let ghost t = strim(s);
    let b: usize = if pct && b0 > a && (cs[b0 - 1] as u32) == 37 {
        proof {
            assert(t.last() == cs@[b0 - 1]);
            assert(t.drop_last() =~= cs@.subrange(a as int, b0 - 1));
        }
        b0 - 1
    } else {
        proof {
            if t.len() > 0 {
                assert(t.last() == cs@[b0 - 1]);
            }
        }
        b0
    };
    match digits_value(cs, a, b) {
        Some(Some(v)) => Some(v),
        _ => None,
    }
}

// ---------------------------------------------------------------------------
// Alpha fields. Alpha is stored in thousandths of full opacity, so the
// textual form is a decimal number with up to three places: `1`, `0`,
// `0.35`. Parsing accepts an integer part and one to three fraction digits.
// ---------------------------------------------------------------------------
/// Index of the first character with code `code`, or -1.
pub open spec fn first_at(s: Seq<char>, code: int) -> int
    decreases s.len(),
{
    if s.len() == 0 {
        -1
    } else if s[0] as u32 == code {
        0
    } else {
        let r = first_at(s.drop_first(), code);
        if r < 0 {
            -1
        } else {
            r + 1
        }
    }
}

pub proof fn lemma_first_at_none(s: Seq<char>, code: int)
    requires
        forall|i: int| 0 <= i < s.len() ==> (#[trigger] s[i]) as u32 != code,
    ensures
        first_at(s, code) == -1,
    decreases s.len(),
{
    if s.len() > 0 {
        assert(forall|i: int|
            0 <= i < s.drop_first().len() ==> (#[trigger] s.drop_first()[i]) as u32 != code);
        lemma_first_at_none(s.drop_first(), code);
    }
}

pub proof fn lemma_first_at_found(s: Seq<char>, code: int, j: int)
    requires
        0 <= j < s.len(),
        s[j] as u32 == code,
        forall|i: int| 0 <= i < j ==> (#[trigger] s[i]) as u32 != code,
    ensures
        first_at(s, code) == j,
    decreases j,
{
    if j > 0 {
        assert(s.drop_first()[j - 1] == s[j]);
        assert(forall|i: int|
            0 <= i < j - 1 ==> (#[trigger] s.drop_first()[i]) as u32 != code) by {
            assert(forall|i: int| 0 <= i < j - 1 ==> s.drop_first()[i] == s[i + 1]);
        }
        lemma_first_at_found(s.drop_first(), code, j - 1);
    }
}

/// The thousandths contributed by one to three fraction digits.
pub open spec fn frac_mille(f: Seq<char>) -> int {
    if f.len() == 1 {
        dec_val(f) * 100
    } else if f.len() == 2 {
        dec_val(f) * 10
    } else {
        dec_val(f)
    }
}

/// An alpha field read in thousandths: a trimmed decimal number
/// `digits[.digits]` with one to three fraction digits. `None` where the
/// shape is wrong; the value itself may exceed 1000 and is range-checked by
/// the caller.
pub open spec fn spec_alpha(s: Seq<char>) -> Option<int> {
    let t = strim(s);
    let dp = first_at(t, 46);
    if dp < 0 {
        if t.len() >= 1 && all_digits(t) {
            Some(1000 * dec_val(t))
        } else {
            None
        }
    } else {
        let ip = t.take(dp);
        let fp = t.skip(dp + 1);
        if ip.len() >= 1 && all_digits(ip) && 1 <= fp.len() <= 3 && all_digits(fp) {
            Some(1000 * dec_val(ip) + frac_mille(fp))
        } else {
            None
        }
    }
}

/// Digit strings of at most three digits stay under 1000.
pub proof fn lemma_dec_val_le3(s: Seq<char>)
    requires
        all_digits(s),
        s.len() <= 3,
    ensures
        0 <= dec_val(s),
        s.len() <= 3 ==> dec_val(s) <= 999,
        s.len() <= 2 ==> dec_val(s) <= 99,
        s.len() <= 1 ==> dec_val(s) <= 9,
    decreases s.len(),
{
    if s.len() > 0 {
        assert(all_digits(s.drop_last()));
        lemma_dec_val_le3(s.drop_last());
        assert(is_dig(s.last()));
    }
}

/// Finds the first character with code `code` in `cs[lo..hi]`.
pub(crate) fn find_at(cs: &Vec<char>, lo: usize, hi: usize, code: u32) -> (r: Option<usize>)
    requires
        lo <= hi <= cs@.len(),
    ensures
        ({
            let s = cs@.subrange(lo as int, hi as int);
            match r {
                Some(j) => lo <= j < hi && first_at(s, code as int) == j - lo,
                None => first_at(s, code as int) == -1,
            }
        }),
{
    let ghost s = cs@.subrange(lo as int, hi as int);
    let mut i: usize = lo;
    while i < hi
        invariant
            lo <= i <= hi <= cs@.len(),
            s == cs@.subrange(lo as int, hi as int),
            forall|j: int| 0 <= j < i - lo ==> (#[trigger] s[j]) as u32 != code,
        decreases hi - i,
    {
        proof {
            assert(s[i - lo] == cs@[i as int]);
        }
        if cs[i] as u32 == code {
            proof {
                lemma_first_at_found(s, code as int, i - lo);
            }
            return Some(i);
        }
        i = i + 1;
    }
    proof {
        lemma_first_at_none(s, code as int);
    }
    None
}

/// Parses an alpha field of `cs[lo..hi]`; see `spec_alpha`. The result is
/// the exact thousandths where they are at most 1000, and some value above
/// 1000 where the field is numeric but too large.
pub(crate) fn parse_alpha(cs: &Vec<char>, lo: usize, hi: usize) -> (r: Option<u32>)
    requires
        lo <= hi <= cs@.len(),
    ensures
        ({
            let v = spec_alpha(cs@.subrange(lo as int, hi as int));
            match r {
                None => v is None,
                Some(x) => v matches Some(n) && (n <= 1000 ==> x == n) && (n > 1000 ==> x
                    > 1000),
            }
        }),
{
    let ghost s = cs@.subrange(lo as int, hi as int);
    let (a, b) = trim_range(cs, lo, hi);
    let ghost t = strim(s);
    match find_at(cs, a, b, 46) {
        None => {
            match digits_value(cs, a, b) {
                Some(Some(v)) => {
                    if v <= 1 {
                        Some(v * 1000)
                    } else {
                        Some(1001)
                    }
                },
                Some(None) => Some(1001),
                None => None,
            }
        },
        Some(j) => {
            proof {
                assert(t.take(j - a) =~= cs@.subrange(a as int, j as int));
                assert(t.skip(j - a + 1) =~= cs@.subrange(j + 1, b as int));
            }
            let fl: usize = b - (j + 1);
            if fl < 1 || fl > 3 {
                return None;
            }
            match digits_value(cs, a, j) {
                None => None,
                Some(ipv) => {
                    match digits_value(cs, j + 1, b) {
                        Some(Some(f)) => {
                            proof {
                                lemma_dec_val_le3(cs@.subrange(j + 1, b as int));
                            }
                            let fm: u32 = if fl == 1 {
                                f * 100
                            } else if fl == 2 {
                                f * 10
                            } else {
                                f
                            };
                            match ipv {
                                Some(iv) => {
                                    if iv <= 1 {
                                        Some(iv * 1000 + fm)
                                    } else {
                                        Some(1001)
                                    }
                                },
                                None => Some(1001),
                            }
                        },
                        Some(None) => {
                            proof {
                                lemma_dec_val_le3(cs@.subrange(j + 1, b as int));
                            }
                            None
                        },
                        None => None,
                    }
                },
            }
        },
    }
}

/// The canonical alpha rendering: `1` or `0` for full or no opacity, else
/// `0.` and the fraction digits with trailing zeros removed.
pub open spec fn spec_alpha_str(a: int) -> Seq<char> {
    if a == 1000 {
        seq!['1']
    } else if a == 0 {
        seq!['0']
    } else {
        let d1 = a / 100;
        let d2 = (a / 10) % 10;
        let d3 = a % 10;
        if d3 != 0 {
            seq!['0', '.', dchar(d1), dchar(d2), dchar(d3)]
        } else if d2 != 0 {
            seq!['0', '.', dchar(d1), dchar(d2)]
        } else {
            seq!['0', '.', dchar(d1)]
        }
    }
}

/// Appends the canonical alpha rendering.
pub(crate) fn push_alpha(out: &mut String, a: u32)
    requires
        a <= 1000,
    ensures
        final(out)@ == old(out)@ + spec_alpha_str(a as int),
{
    if a == 1000 {
        push_digit(out, 1);
    } else if a == 0 {
        push_digit(out, 0);
    } else {
        let d1: u32 = a / 100;
        let d2: u32 = (a / 10) % 10;
        let d3: u32 = a % 10;
        push_digit(out, 0);
        out.append(".");
        proof {
            reveal_strlit(".");
            assert(("."@) =~= seq!['.']);
        }
        push_digit(out, d1);
        if d3 != 0 {
            push_digit(out, d2);
            push_digit(out, d3);
            proof {
                assert(out@ =~= old(out)@ + spec_alpha_str(a as int));
            }
        } else if d2 != 0 {
            push_digit(out, d2);
            proof {
                assert(out@ =~= old(out)@ + spec_alpha_str(a as int));
            }
        } else {
            proof {
                assert(out@ =~= old(out)@ + spec_alpha_str(a as int));
            }
        }
    }
}

// ---------------------------------------------------------------------------
// Function-form strings: `name(f1,f2,f3)` and `name(f1,f2,f3,f4)`, with a
// three-letter or four-letter lower-case name matched case-insensitively.
// ---------------------------------------------------------------------------
/// The comma-separated body parsed as three integer fields.
pub open spec fn spec_fields3(body: Seq<char>, p0: bool, p1: bool, p2: bool) -> Option<
    (u32, u32, u32),
> {
    let fs = split_commas(body);
    if fs.len() == 3 {
        let a = spec_field_u32(fs[0], p0);
        let b = spec_field_u32(fs[1], p1);
        let c = spec_field_u32(fs[2], p2);
        if a is Some && b is Some && c is Some {
            Some((a->Some_0, b->Some_0, c->Some_0))
        } else {
            None
        }
    } else {
        None
    }
}

/// The comma-separated body parsed as four integer fields.
pub open spec fn spec_fields4(body: Seq<char>, pct: bool) -> Option<(u32, u32, u32, u32)> {
    let fs = split_commas(body);
    if fs.len() == 4 {
        let a = spec_field_u32(fs[0], pct);
        let b = spec_field_u32(fs[1], pct);
        let c = spec_field_u32(fs[2], pct);
        let d = spec_field_u32(fs[3], pct);
        if a is Some && b is Some && c is Some && d is Some {
            Some((a->Some_0, b->Some_0, c->Some_0, d->Some_0))
        } else {
            None
        }
    } else {
        None
    }
}

/// A whole function-form string with a three-letter name:
/// trimmed, `c0 c1 c2 (` case-insensitively, a three-field body, `)`.
pub open spec fn spec_func3(
    s: Seq<char>,
    c0: char,
    c1: char,
    c2: char,
    p0: bool,
    p1: bool,
    p2: bool,
) -> Option<(u32, u32, u32)> {
    let t = strim(s);
    if t.len() >= 5 && lce(t[0], c0) && lce(t[1], c1) && lce(t[2], c2) && t[3] == '(' && t[t.len()
        - 1] == ')' {
        spec_fields3(t.subrange(4, t.len() - 1), p0, p1, p2)
    } else {
        None
    }
}

/// A whole function-form string with a four-letter name and four fields.
pub open spec fn spec_func4(s: Seq<char>, c0: char, c1: char, c2: char, c3: char, pct: bool) -> Option<
    (u32, u32, u32, u32),
> {
    let t = strim(s);
    if t.len() >= 6 && lce(t[0], c0) && lce(t[1], c1) && lce(t[2], c2) && lce(t[3], c3) && t[4]
        == '(' && t[t.len() - 1] == ')' {
        spec_fields4(t.subrange(5, t.len() - 1), pct)
    } else {
        None
    }
}

/// A whole function-form string with a four-letter name, three integer
/// fields and a trailing alpha field. The alpha component of the result is
/// in thousandths and may exceed 1000; the caller range-checks it.
pub open spec fn spec_func3a(
    s: Seq<char>,
    c0: char,
    c1: char,
    c2: char,
    c3: char,
    p0: bool,
    p1: bool,
    p2: bool,
) -> Option<(u32, u32, u32, int)> {
    let t = strim(s);
    if t.len() >= 6 && lce(t[0], c0) && lce(t[1], c1) && lce(t[2], c2) && lce(t[3], c3) && t[4]
        == '(' && t[t.len() - 1] == ')' {
        let fs = split_commas(t.subrange(5, t.len() - 1));
        if fs.len() == 4 {
            let a = spec_field_u32(fs[0], p0);
            let b = spec_field_u32(fs[1], p1);
            let c = spec_field_u32(fs[2], p2);
            let d = spec_alpha(fs[3]);
            if a is Some && b is Some && c is Some && d is Some {
                Some((a->Some_0, b->Some_0, c->Some_0, d->Some_0))
            } else {
                None
            }
        } else {
            None
        }
    } else {
        None
    }
}

/// Parses a whole three-field-plus-alpha function string; see
/// `spec_func3a`. The alpha of the result is exact where it is at most
/// 1000, and some value above 1000 where the field is numeric but too
/// large.
pub(crate) fn parse_func3a(
    s: &str,
    c0: char,
    c1: char,
    c2: char,
    c3: char,
    p0: bool,
    p1: bool,
    p2: bool,
) -> (r: Option<(u32, u32, u32, u32)>)
    ensures
        ({
            match spec_func3a(s@, c0, c1, c2, c3, p0, p1, p2) {
                None => r is None,
                Some(t) => r matches Some(x) && x.0 == t.0 && x.1 == t.1 && x.2 == t.2 && (t.3
                    <= 1000 ==> x.3 == t.3) && (t.3 > 1000 ==> x.3 > 1000),
            }
        }),
{
    let cs = to_chars(s);
    let n: usize = cs.len();
    let (a, b) = trim_range(&cs, 0, n);
    proof {
        assert(cs@.subrange(0, n as int) =~= s@);
    }
    let ghost t = strim(s@);
    if b - a >= 6 && lce_exec(cs[a], c0) && lce_exec(cs[a + 1], c1) && lce_exec(cs[a + 2], c2)
        && lce_exec(cs[a + 3], c3) && cs[a + 4] == '(' && cs[b - 1] == ')' {
        proof {
            assert(t[0] == cs@[a as int]);
            assert(t[1] == cs@[a + 1]);
            assert(t[2] == cs@[a + 2]);
            assert(t[3] == cs@[a + 3]);
            assert(t[4] == cs@[a + 4]);
            assert(t[t.len() - 1] == cs@[b - 1]);
            assert(t.subrange(5, t.len() - 1) =~= cs@.subrange(a + 5, b - 1));
        }
        let fs = split_exec(&cs, a + 5, b - 1);
        if fs.len() != 4 {
            return None;
        }
        let f0: (usize, usize) = fs[0];
        let f1: (usize, usize) = fs[1];
        let f2: (usize, usize) = fs[2];
        let f3: (usize, usize) = fs[3];
        let x = parse_field(&cs, f0.0, f0.1, p0);
        let y = parse_field(&cs, f1.0, f1.1, p1);
        let z = parse_field(&cs, f2.0, f2.1, p2);
        let w = parse_alpha(&cs, f3.0, f3.1);
        match (x, y, z, w) {
            (Some(xv), Some(yv), Some(zv), Some(wv)) => Some((xv, yv, zv, wv)),
            _ => None,
        }
    } else {
        proof {
            if t.len() >= 6 {
                assert(t[0] == cs@[a as int]);
                assert(t[1] == cs@[a + 1]);
                assert(t[2] == cs@[a + 2]);
                assert(t[3] == cs@[a + 3]);
                assert(t[4] == cs@[a + 4]);
                assert(t[t.len() - 1] == cs@[b - 1]);
            }
        }
        None
    }
}

pub(crate) fn lce_exec(c: char, lower: char) -> (r: bool)
    ensures
        r == lce(c, lower),
{
    c == lower || (c as u32) + 32 == (lower as u32)
}

/// Parses the three fields of `cs[lo..hi]`; see `spec_fields3`.
pub(crate) fn fields3(cs: &Vec<char>, lo: usize, hi: usize, p0: bool, p1: bool, p2: bool) -> (r:
    Option<(u32, u32, u32)>)
    requires
        lo <= hi <= cs@.len(),
    ensures
        r == spec_fields3(cs@.subrange(lo as int, hi as int), p0, p1, p2),
{
    let fs = split_exec(cs, lo, hi);
    if fs.len() != 3 {
        return None;
    }
    let f0: (usize, usize) = fs[0];
    let f1: (usize, usize) = fs[1];
    let f2: (usize, usize) = fs[2];
    let a = parse_field(cs, f0.0, f0.1, p0);
    let b = parse_field(cs, f1.0, f1.1, p1);
    let c = parse_field(cs, f2.0, f2.1, p2);
    match (a, b, c) {
        (Some(x), Some(y), Some(z)) => Some((x, y, z)),
        _ => None,
    }
}

/// Parses the four fields of `cs[lo..hi]`; see `spec_fields4`.
pub(crate) fn fields4(cs: &Vec<char>, lo: usize, hi: usize, pct: bool) -> (r: Option<
    (u32, u32, u32, u32),
>)
    requires
        lo <= hi <= cs@.len(),
    ensures
        r == spec_fields4(cs@.subrange(lo as int, hi as int), pct),
{
    let fs = split_exec(cs, lo, hi);
    if fs.len() != 4 {
        return None;
    }
    let f0: (usize, usize) = fs[0];
    let f1: (usize, usize) = fs[1];
    let f2: (usize, usize) = fs[2];
    let f3: (usize, usize) = fs[3];
    let a = parse_field(cs, f0.0, f0.1, pct);
    let b = parse_field(cs, f1.0, f1.1, pct);
    let c = parse_field(cs, f2.0, f2.1, pct);
    let d = parse_field(cs, f3.0, f3.1, pct);
    match (a, b, c, d) {
        (Some(x), Some(y), Some(z), Some(w)) => Some((x, y, z, w)),
        _ => None,
    }
}

/// Parses a whole three-field function string; see `spec_func3`.
pub(crate) fn parse_func3(
    s: &str,
    c0: char,
    c1: char,
    c2: char,
    p0: bool,
    p1: bool,
    p2: bool,
) -> (r: Option<(u32, u32, u32)>)
    ensures
        r == spec_func3(s@, c0, c1, c2, p0, p1, p2),
{
    let cs = to_chars(s);
    let n: usize = cs.len();
    let (a, b) = trim_range(&cs, 0, n);
    proof {
        assert(cs@.subrange(0, n as int) =~= s@);
    }
    let ghost t = strim(s@);
    if b - a >= 5 && lce_exec(cs[a], c0) && lce_exec(cs[a + 1], c1) && lce_exec(cs[a + 2], c2)
        && cs[a + 3] == '(' && cs[b - 1] == ')' {
        proof {
            assert(t[0] == cs@[a as int]);
            assert(t[1] == cs@[a + 1]);
            assert(t[2] == cs@[a + 2]);
            assert(t[3] == cs@[a + 3]);
            assert(t[t.len() - 1] == cs@[b - 1]);
            assert(t.subrange(4, t.len() - 1) =~= cs@.subrange(a + 4, b - 1));
        }
        fields3(&cs, a + 4, b - 1, p0, p1, p2)
    } else {
        proof {
            if t.len() >= 5 {
                assert(t[0] == cs@[a as int]);
                assert(t[1] == cs@[a + 1]);
                assert(t[2] == cs@[a + 2]);
                assert(t[3] == cs@[a + 3]);
                assert(t[t.len() - 1] == cs@[b - 1]);
            }
        }
        None
    }
}

/// Parses a whole four-field function string; see `spec_func4`.
pub(crate) fn parse_func4(s: &str, c0: char, c1: char, c2: char, c3: char, pct: bool) -> (r: Option<
    (u32, u32, u32, u32),
>)
    ensures
        r == spec_func4(s@, c0, c1, c2, c3, pct),
{
    let cs = to_chars(s);
    let n: usize = cs.len();
    let (a, b) = trim_range(&cs, 0, n);
    proof {
        assert(cs@.subrange(0, n as int) =~= s@);
    }
    let ghost t = strim(s@);
    if b - a >= 6 && lce_exec(cs[a], c0) && lce_exec(cs[a + 1], c1) && lce_exec(cs[a + 2], c2)
        && lce_exec(cs[a + 3], c3) && cs[a + 4] == '(' && cs[b - 1] == ')' {
        proof {
            assert(t[0] == cs@[a as int]);
            assert(t[1] == cs@[a + 1]);
            assert(t[2] == cs@[a + 2]);
            assert(t[3] == cs@[a + 3]);
            assert(t[4] == cs@[a + 4]);
            assert(t[t.len() - 1] == cs@[b - 1]);
            assert(t.subrange(5, t.len() - 1) =~= cs@.subrange(a + 5, b - 1));
        }
        fields4(&cs, a + 5, b - 1, pct)
    } else {
        proof {
            if t.len() >= 6 {
                assert(t[0] == cs@[a as int]);
                assert(t[1] == cs@[a + 1]);
                assert(t[2] == cs@[a + 2]);
                assert(t[3] == cs@[a + 3]);
                assert(t[4] == cs@[a + 4]);
                assert(t[t.len() - 1] == cs@[b - 1]);
            }
        }
        None
    }
}

// ---------------------------------------------------------------------------
// Canonical rendering of fields, and the round trip back through the parser.
// ---------------------------------------------------------------------------
/// One rendered field: the decimal digits, with a percent sign where the
/// field is percent-valued.
pub open spec fn fld(n: int, pct: bool) -> Seq<char> {
    if pct {
        dec_str(n).push('%')
    } else {
        dec_str(n)
    }
}

/// A rendered three-field body.
pub open spec fn body3(a: int, b: int, c: int, p0: bool, p1: bool, p2: bool) -> Seq<char> {
    fld(a, p0) + seq![','] + fld(b, p1) + seq![','] + fld(c, p2)
}

/// A rendered four-field body.
pub open spec fn body4(a: int, b: int, c: int, d: int, pct: bool) -> Seq<char> {
    fld(a, pct) + seq![','] + fld(b, pct) + seq![','] + fld(c, pct) + seq![','] + fld(d, pct)
}

/// A rendered field is comma-free and parses back to its value.
pub proof fn lemma_fld_round(n: int, pct: bool)
    requires
        0 <= n <= 0xffff_ffff,
    ensures
        no_comma(fld(n, pct)),
        fld(n, pct).len() >= 1,
        spec_field_u32(fld(n, pct), pct) == Some(n as u32),
{
    lemma_dec_str_val(n);
    let ds = dec_str(n);
    let f = fld(n, pct);
    assert('%' as u32 == 37);
    if pct {
        assert(f.last() == '%');
        assert(f[0] == ds[0]);
        assert(is_dig(f[0]));
        lemma_strim_id(f);
        assert(f.drop_last() =~= ds);
        assert(spec_num(ds) == Some(n as u32));
    } else {
        assert(f == ds);
        assert(is_dig(f[0]) && is_dig(f.last()));
        lemma_strim_id(f);
        assert(spec_num(f) == Some(n as u32));
    }
    assert forall|i: int| 0 <= i < f.len() implies (#[trigger] f[i]) as u32 != 44 by {
        if i < ds.len() {
            assert(f[i] == ds[i]);
            assert(is_dig(ds[i]));
        } else {
            assert(f[i] == '%');
        }
    }
}

/// A rendered three-field body parses back to its values.
pub proof fn lemma_body3_round(a: int, b: int, c: int, p0: bool, p1: bool, p2: bool)
    requires
        0 <= a <= 0xffff_ffff,
        0 <= b <= 0xffff_ffff,
        0 <= c <= 0xffff_ffff,
    ensures
        spec_fields3(body3(a, b, c, p0, p1, p2), p0, p1, p2) == Some(
            (a as u32, b as u32, c as u32),
        ),
{
    lemma_fld_round(a, p0);
    lemma_fld_round(b, p1);
    lemma_fld_round(c, p2);
    let fa = fld(a, p0);
    let fb = fld(b, p1);
    let fc = fld(c, p2);
    let body = body3(a, b, c, p0, p1, p2);
    assert(body =~= fa + seq![','] + (fb + seq![','] + fc));
    lemma_split_around(fa, fb + seq![','] + fc);
    lemma_split_around(fb, fc);
    lemma_split_whole(fc);
    let fs = split_commas(body);
    assert(fs =~~= seq![fa, fb, fc]);
}

/// A rendered four-field body parses back to its values.
pub proof fn lemma_body4_round(a: int, b: int, c: int, d: int, pct: bool)
    requires
        0 <= a <= 0xffff_ffff,
        0 <= b <= 0xffff_ffff,
        0 <= c <= 0xffff_ffff,
        0 <= d <= 0xffff_ffff,
    ensures
        spec_fields4(body4(a, b, c, d, pct), pct) == Some(
            (a as u32, b as u32, c as u32, d as u32),
        ),
{
    lemma_fld_round(a, pct);
    lemma_fld_round(b, pct);
    lemma_fld_round(c, pct);
    lemma_fld_round(d, pct);
    let fa = fld(a, pct);
    let fb = fld(b, pct);
    let fc = fld(c, pct);
    let fd = fld(d, pct);
    let body = body4(a, b, c, d, pct);
    assert(body =~= fa + seq![','] + (fb + seq![','] + (fc + seq![','] + fd)));
    lemma_split_around(fa, fb + seq![','] + (fc + seq![','] + fd));
    lemma_split_around(fb, fc + seq![','] + fd);
    lemma_split_around(fc, fd);
    lemma_split_whole(fd);
    let fs = split_commas(body);
    assert(fs =~~= seq![fa, fb, fc, fd]);
}

/// A rendered alpha field is comma-free and parses back to its value.
pub proof fn lemma_alpha_round(d: int)
    requires
        0 <= d <= 1000,
    ensures
        no_comma(spec_alpha_str(d)),
        spec_alpha_str(d).len() >= 1,
        spec_alpha(spec_alpha_str(d)) == Some(d),
{
    let t = spec_alpha_str(d);
    if d == 1000 || d == 0 {
        let c = if d == 1000 {
            '1'
        } else {
            '0'
        };
        assert(t =~= seq![c]);
        assert(is_dig(c));
        lemma_strim_id(t);
        lemma_first_at_none(t, 46);
        assert(t.drop_last() =~= Seq::<char>::empty());
        assert(dec_val(t.drop_last()) == 0);
        assert(t.last() == c);
        assert(dec_val(t) == dval(c));
    } else {
        let d1 = d / 100;
        let d2 = (d / 10) % 10;
        let d3 = d % 10;
        lemma_fundamental_div_mod(d, 10);
        lemma_fundamental_div_mod(d / 10, 10);
        vstd::arithmetic::div_mod::lemma_div_denominator(d, 10, 10);
        assert(d == 100 * d1 + 10 * d2 + d3);
        assert(0 <= d1 <= 9);
        assert(0 <= d2 <= 9 && 0 <= d3 <= 9);
        assert(is_dig(dchar(d1)) && is_dig(dchar(d2)) && is_dig(dchar(d3)));
        assert(dval(dchar(d1)) == d1 && dval(dchar(d2)) == d2 && dval(dchar(d3)) == d3);
        assert(t[0] == '0' && !is_ws('0'));
        assert(t[1] == '.');
        lemma_strim_id(t);
        lemma_first_at_found(t, 46, 1);
        let ip = t.take(1);
        let fp = t.skip(2);
        assert(ip =~= seq!['0']);
        assert(ip.drop_last() =~= Seq::<char>::empty());
        assert(dec_val(ip.drop_last()) == 0);
        assert(ip.last() == '0');
        assert(dec_val(ip) == 0);
        if d3 != 0 {
            assert(fp =~= seq![dchar(d1), dchar(d2), dchar(d3)]);
            let p2 = fp.drop_last();
            assert(p2 =~= seq![dchar(d1), dchar(d2)]);
            let p1 = p2.drop_last();
            assert(p1 =~= seq![dchar(d1)]);
            assert(p1.drop_last() =~= Seq::<char>::empty());
            assert(dec_val(p1.drop_last()) == 0);
            assert(p1.last() == dchar(d1));
            assert(dec_val(p1) == d1);
            assert(p2.last() == dchar(d2));
            assert(dec_val(p2) == d1 * 10 + d2);
            assert(fp.last() == dchar(d3));
            assert(dec_val(fp) == (d1 * 10 + d2) * 10 + d3);
            assert(frac_mille(fp) == d);
        } else if d2 != 0 {
            assert(fp =~= seq![dchar(d1), dchar(d2)]);
            let p1 = fp.drop_last();
            assert(p1 =~= seq![dchar(d1)]);
            assert(p1.drop_last() =~= Seq::<char>::empty());
            assert(dec_val(p1.drop_last()) == 0);
            assert(p1.last() == dchar(d1));
            assert(dec_val(p1) == d1);
            assert(fp.last() == dchar(d2));
            assert(dec_val(fp) == d1 * 10 + d2);
            assert(frac_mille(fp) == d);
        } else {
            assert(fp =~= seq![dchar(d1)]);
            assert(fp.drop_last() =~= Seq::<char>::empty());
            assert(dec_val(fp.drop_last()) == 0);
            assert(fp.last() == dchar(d1));
            assert(dec_val(fp) == d1);
            assert(frac_mille(fp) == d);
        }
    }
    assert forall|i: int| 0 <= i < t.len() implies (#[trigger] t[i]) as u32 != 44 by {
        assert(is_dig(t[i]) || t[i] == '.');
    }
}

/// A rendered three-field-plus-alpha function string parses back to its
/// values.
pub proof fn lemma_func3a_round(
    a: int,
    b: int,
    c: int,
    d: int,
    c0: char,
    c1: char,
    c2: char,
    c3: char,
    p0: bool,
    p1: bool,
    p2: bool,
)
    requires
        0 <= a <= 0xffff_ffff,
        0 <= b <= 0xffff_ffff,
        0 <= c <= 0xffff_ffff,
        0 <= d <= 1000,
        !is_ws(c0),
    ensures
        spec_func3a(
            seq![c0, c1, c2, c3, '('] + body3(a, b, c, p0, p1, p2) + seq![','] + spec_alpha_str(d)
                + seq![')'],
            c0,
            c1,
            c2,
            c3,
            p0,
            p1,
            p2,
        ) == Some((a as u32, b as u32, c as u32, d)),
{
    lemma_fld_round(a, p0);
    lemma_fld_round(b, p1);
    lemma_fld_round(c, p2);
    lemma_alpha_round(d);
    let fa = fld(a, p0);
    let fb = fld(b, p1);
    let fc = fld(c, p2);
    let fd = spec_alpha_str(d);
    let body = body3(a, b, c, p0, p1, p2) + seq![','] + fd;
    let s = seq![c0, c1, c2, c3, '('] + body + seq![')'];
    assert(s[0] == c0 && s.last() == ')');
    assert(!is_ws(')'));
    lemma_strim_id(s);
    assert(lce(s[0], c0) && lce(s[1], c1) && lce(s[2], c2) && lce(s[3], c3));
    assert(s[4] == '(');
    assert(s.subrange(5, s.len() - 1) =~= body);
    assert(body =~= fa + seq![','] + (fb + seq![','] + (fc + seq![','] + fd)));
    lemma_split_around(fa, fb + seq![','] + (fc + seq![','] + fd));
    lemma_split_around(fb, fc + seq![','] + fd);
    lemma_split_around(fc, fd);
    lemma_split_whole(fd);
    let fs = split_commas(body);
    assert(fs =~~= seq![fa, fb, fc, fd]);
    assert(seq![c0, c1, c2, c3, '('] + body3(a, b, c, p0, p1, p2) + seq![','] + spec_alpha_str(d)
        + seq![')'] =~= s);
}

/// A rendered three-field function string parses back to its values.
pub proof fn lemma_func3_round(
    a: int,
    b: int,
    c: int,
    c0: char,
    c1: char,
    c2: char,
    p0: bool,
    p1: bool,
    p2: bool,
)
    requires
        0 <= a <= 0xffff_ffff,
        0 <= b <= 0xffff_ffff,
        0 <= c <= 0xffff_ffff,
        !is_ws(c0),
    ensures
        spec_func3(
            seq![c0, c1, c2, '('] + body3(a, b, c, p0, p1, p2) + seq![')'],
            c0,
            c1,
            c2,
            p0,
            p1,
            p2,
        ) == Some((a as u32, b as u32, c as u32)),
{
    let body = body3(a, b, c, p0, p1, p2);
    let s = seq![c0, c1, c2, '('] + body + seq![')'];
    assert(s[0] == c0 && s.last() == ')');
    assert(!is_ws(')'));
    lemma_strim_id(s);
    assert(lce(s[0], c0) && lce(s[1], c1) && lce(s[2], c2));
    assert(s[3] == '(');
    assert(s.subrange(4, s.len() - 1) =~= body);
    lemma_body3_round(a, b, c, p0, p1, p2);
}

/// A rendered four-field function string parses back to its values.
pub proof fn lemma_func4_round(
    a: int,
    b: int,
    c: int,
    d: int,
    c0: char,
    c1: char,
    c2: char,
    c3: char,
    pct: bool,
)
    requires
        0 <= a <= 0xffff_ffff,
        0 <= b <= 0xffff_ffff,
        0 <= c <= 0xffff_ffff,
        0 <= d <= 0xffff_ffff,
        !is_ws(c0),
    ensures
        spec_func4(
            seq![c0, c1, c2, c3, '('] + body4(a, b, c, d, pct) + seq![')'],
            c0,
            c1,
            c2,
            c3,
            pct,
        ) == Some((a as u32, b as u32, c as u32, d as u32)),
{
    let body = body4(a, b, c, d, pct);
    let s = seq![c0, c1, c2, c3, '('] + body + seq![')'];
    assert(s[0] == c0 && s.last() == ')');
    assert(!is_ws(')'));
    lemma_strim_id(s);
    assert(lce(s[0], c0) && lce(s[1], c1) && lce(s[2], c2) && lce(s[3], c3));
    assert(s[4] == '(');
    assert(s.subrange(5, s.len() - 1) =~= body);
    lemma_body4_round(a, b, c, d, pct);
}

// ---------------------------------------------------------------------------
// Building output strings.
// ---------------------------------------------------------------------------
/// Appends the digit character for `d`.
pub(crate) fn push_digit(out: &mut String, d: u32)
    requires
        d < 10,
    ensures
        final(out)@ == old(out)@ + seq![dchar(d as int)],
{
    let lit: &str = if d == 0 {
        "0"
    } else if d == 1 {
        "1"
    } else if d == 2 {
        "2"
    } else if d == 3 {
        "3"
    } else if d == 4 {
        "4"
    } else if d == 5 {
        "5"
    } else if d == 6 {
        "6"
    } else if d == 7 {
        "7"
    } else if d == 8 {
        "8"
    } else {
        "9"
    };
    proof {
        reveal_strlit("0");
        reveal_strlit("1");
        reveal_strlit("2");
        reveal_strlit("3");
        reveal_strlit("4");
        reveal_strlit("5");
        reveal_strlit("6");
        reveal_strlit("7");
        reveal_strlit("8");
        reveal_strlit("9");
        assert(lit@ =~= seq![dchar(d as int)]);
    }
    out.append(lit);
}

/// A fresh copy of `s`, for error payloads.
pub(crate) fn copy_str(s: &str) -> (out: String)
    ensures
        out@ == s@,
{
    s.to_owned()
}

/// `a,b,c` — the offending values of a rejected three-channel tuple.
pub(crate) fn vals3_string(a: u32, b: u32, c: u32) -> (out: String) {
    let mut out = String::new();
    push_dec(&mut out, a);
    out.append(",");
    push_dec(&mut out, b);
    out.append(",");
    push_dec(&mut out, c);
    out
}

/// `a,b,c,d` — the offending values of a rejected four-channel tuple.
pub(crate) fn vals4_string(a: u32, b: u32, c: u32, d: u32) -> (out: String) {
    let mut out = vals3_string(a, b, c);
    out.append(",");
    push_dec(&mut out, d);
    out
}

/// Appends the decimal rendering of `n`.
pub(crate) fn push_dec(out: &mut String, n: u32)
    ensures
        final(out)@ == old(out)@ + dec_str(n as int),
    decreases n,
{
    if n < 10 {
        push_digit(out, n);
    } else {
        push_dec(out, n / 10);
        push_digit(out, n % 10);
        proof {
            assert(old(out)@ + dec_str(n as int / 10) + seq![dchar(n as int % 10)] =~= old(out)@
                + dec_str(n as int));
        }
    }
}

} // verus!
