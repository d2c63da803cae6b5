//! Character-level utilities shared by the record parser, the writer and
//! the line-rewriting helpers: trimming, fixed-point numeric parsing and
//! formatting, line splitting and substring replacement, specified over
//! `Seq<char>`.

use vstd::prelude::*;

verus! {

// ---------------------------------------------------------------------------
// Character classes
// ---------------------------------------------------------------------------

/// Blank characters stripped by field trimming.
pub open spec fn is_space(c: char) -> bool {
    c == ' ' || c == '\t'
}

pub open spec fn is_digit(c: char) -> bool {
    48 <= c as int && c as int <= 57
}

/// Numeric value of a decimal digit character.
pub open spec fn digit_val(c: char) -> int {
    c as int - 48
}

pub open spec fn all_digits(s: Seq<char>) -> bool {
    forall|i: int| 0 <= i < s.len() ==> is_digit(#[trigger] s[i])
}

// ---------------------------------------------------------------------------
// Trimming
// ---------------------------------------------------------------------------

pub open spec fn trim_start(s: Seq<char>) -> Seq<char>
    decreases s.len(),
{
    if s.len() > 0 && is_space(s[0]) {
        trim_start(s.drop_first())
    } else {
        s
    }
}

pub open spec fn trim_end(s: Seq<char>) -> Seq<char>
    decreases s.len(),
{
    if s.len() > 0 && is_space(s.last()) {
        trim_end(s.drop_last())
    } else {
        s
    }
}

/// Surrounding blanks removed, as `str::trim` does for the blank
/// characters that occur inside fixed-column records.
pub open spec fn trim(s: Seq<char>) -> Seq<char> {
    trim_end(trim_start(s))
}

// ---------------------------------------------------------------------------
// Integer and fixed-point parsing
// ---------------------------------------------------------------------------

pub open spec fn pow10(n: int) -> int
    decreases n,
{
    if n <= 0 {
        1
    } else {
        10 * pow10(n - 1)
    }
}

/// Value of a sequence of decimal digits, most significant first.
pub open spec fn digits_value(s: Seq<char>) -> int
    decreases s.len(),
{
    if s.len() == 0 {
        0
    } else {
        digits_value(s.drop_last()) * 10 + digit_val(s.last())
    }
}

/// Sign carried by an optional leading `-` (a leading `+` is accepted and
/// positive).
pub open spec fn sign_of(t: Seq<char>) -> int {
    if t.len() > 0 && t[0] == '-' {
        -1
    } else {
        1
    }
}

/// The sequence with an optional leading sign character removed.
pub open spec fn unsigned_part(t: Seq<char>) -> Seq<char> {
    if t.len() > 0 && (t[0] == '-' || t[0] == '+') {
        t.drop_first()
    } else {
        t
    }
}

/// Meaning of a fixed-column integer field: trim blanks, then an optional
/// sign followed by at least one decimal digit; anything else is
/// malformed.
pub open spec fn parse_int_spec(field: Seq<char>) -> Option<int> {
    let t = trim(field);
    let d = unsigned_part(t);
    if d.len() > 0 && all_digits(d) {
        Some(sign_of(t) * digits_value(d))
    } else {
        None
    }
}

/// Index of the first `.` in `s`, or `s.len()` if there is none.
pub open spec fn dot_index(s: Seq<char>) -> int
    decreases s.len(),
{
    if s.len() == 0 {
        0
    } else if s[0] == '.' {
        0
    } else {
        1 + dot_index(s.drop_first())
    }
}

/// Meaning of a fixed-column decimal field, scaled to an integer.
///
/// After trimming and an optional sign the field is digits, optionally
/// with one `.` and at most `max_frac` fraction digits; at least one digit
/// must be present somewhere.  The result is the exact value times
/// `pow10(max_frac)`.
pub open spec fn parse_fixed_spec(field: Seq<char>, max_frac: int) -> Option<int> {
    let t = trim(field);
    let d = unsigned_part(t);
    let k = dot_index(d);
    let ip = d.subrange(0, k);
    let fp = if k == d.len() {
        Seq::<char>::empty()
    } else {
        d.subrange(k + 1, d.len() as int)
    };
    if ip.len() + fp.len() > 0 && all_digits(ip) && all_digits(fp) && fp.len() <= max_frac {
        Some(sign_of(t) * (digits_value(ip) * pow10(max_frac) + digits_value(fp) * pow10(
            max_frac - fp.len(),
        )))
    } else {
        None
    }
}

// ---------------------------------------------------------------------------
// Fixed-column field access
// ---------------------------------------------------------------------------

/// The line padded with blanks on the right up to length `n`.
pub open spec fn padded(s: Seq<char>, n: int) -> Seq<char> {
    if s.len() >= n {
        s
    } else {
        s + Seq::<char>::new((n - s.len()) as nat, |i: int| ' ')
    }
}

/// The characters of columns `lo..hi` (0-based, half-open), reading
/// absent columns of a short line as blanks.
pub open spec fn field(line: Seq<char>, lo: int, hi: int) -> Seq<char> {
    padded(line, hi).subrange(lo, hi)
}

/// The character at column `i`, blank if the line is shorter.
pub open spec fn char_at(line: Seq<char>, i: int) -> char {
    if i < line.len() {
        line[i]
    } else {
        ' '
    }
}

// ---------------------------------------------------------------------------
// Executable helpers
// ---------------------------------------------------------------------------

/// Relies on `String::push`: appends exactly the given character.
#[verifier::external_body]
pub fn push_char(s: &mut String, c: char)
    ensures
        final(s)@ == old(s)@.push(c),
{
    s.push(c);
}

/// Builds a `String` whose view is exactly the given character sequence.
pub fn chars_to_string(v: &Vec<char>) -> (s: String)
    ensures
        s@ == v@,
{
    let mut s = String::new();
    let mut i: usize = 0;
    while i < v.len()
        invariant
            0 <= i <= v.len(),
            s@ == v@.take(i as int),
        decreases v.len() - i,
    {
        push_char(&mut s, v[i]);
        assert(v@.take(i as int).push(v@[i as int]) =~= v@.take(i as int + 1));
        i = i + 1;
    }
    assert(v@.take(v.len() as int) =~= v@);
    s
}

/// The characters of a string slice, in order.
pub fn str_chars(s: &str) -> (v: Vec<char>)
    ensures
        v@ == s@,
{
    let n = s.unicode_len();
    let mut v: Vec<char> = Vec::new();
    let mut i: usize = 0;
    while i < n
        invariant
            n == s@.len(),
            0 <= i <= n,
            v@ == s@.take(i as int),
        decreases n - i,
    {
        let c = s.get_char(i);
        v.push(c);
        assert(s@.take(i as int).push(s@[i as int]) =~= s@.take(i as int + 1));
        i = i + 1;
    }
    assert(s@.take(n as int) =~= s@);
    v
}

/// String equality at the level of views.
pub fn str_eq(a: &str, b: &str) -> (r: bool)
    ensures
        r == (a@ == b@),
{
    let x: String = a.to_owned();
    let y: String = b.to_owned();
    x == y
}

/// Compares a character vector with a string slice.
pub fn chars_eq_str(v: &Vec<char>, s: &str) -> (r: bool)
    ensures
        r == (v@ == s@),
{
    let n = s.unicode_len();
    if v.len() != n {
        return false;
    }
    let mut i: usize = 0;
    while i < n
        invariant
            n == s@.len(),
            v@.len() == n,
            0 <= i <= n,
            forall|j: int| 0 <= j < i ==> v@[j] == s@[j],
        decreases n - i,
    {
        if v[i] != s.get_char(i) {
            return false;
        }
        i = i + 1;
    }
    assert(v@ =~= s@);
    true
}

/// Copies columns `lo..hi` of a line, padding absent columns with blanks.
pub fn field_chars(line: &Vec<char>, lo: usize, hi: usize) -> (r: Vec<char>)
    requires
        lo <= hi,
    ensures
        r@ == field(line@, lo as int, hi as int),
{
    let mut r: Vec<char> = Vec::new();
    assert(field(line@, lo as int, lo as int) =~= Seq::<char>::empty());
    let mut i: usize = lo;
    while i < hi
        invariant
            lo <= i <= hi,
            r@ == field(line@, lo as int, i as int),
        decreases hi - i,
    {
        let c = if i < line.len() {
            line[i]
        } else {
            ' '
        };
        r.push(c);
        assert(field(line@, lo as int, i as int).push(c) =~= field(
            line@,
            lo as int,
            i as int + 1,
        ));
        i = i + 1;
    }
    r
}

/// The character at column `i` of a line, blank when the line is shorter.
pub fn char_at_exec(line: &Vec<char>, i: usize) -> (c: char)
    ensures
        c == char_at(line@, i as int),
{
    if i < line.len() {
        line[i]
    } else {
        ' '
    }
}

// ---------------------------------------------------------------------------
// Arithmetic lemmas
// ---------------------------------------------------------------------------

pub proof fn lemma_pow10_pos(n: int)
    ensures
        pow10(n) >= 1,
    decreases n,
{
    if n > 0 {
        lemma_pow10_pos(n - 1);
    }
}

pub proof fn lemma_pow10_mono(a: int, b: int)
    requires
        a <= b,
    ensures
        pow10(a) <= pow10(b),
    decreases b - a,
{
    if a < b {
        lemma_pow10_mono(a, b - 1);
        lemma_pow10_pos(b - 1);
    }
}

pub proof fn lemma_pow10_add(a: int, b: int)
    requires
        a >= 0,
        b >= 0,
    ensures
        pow10(a + b) == pow10(a) * pow10(b),
    decreases a,
{
    if a > 0 {
        lemma_pow10_add(a - 1, b);
        assert(pow10(a + b) == 10 * pow10(a - 1 + b));
        assert(10 * (pow10(a - 1) * pow10(b)) == (10 * pow10(a - 1)) * pow10(b))
            by (nonlinear_arith);
    }
}

pub proof fn lemma_pow10_values()
    ensures
        pow10(0) == 1,
        pow10(1) == 10,
        pow10(2) == 100,
        pow10(3) == 1000,
        pow10(11) == 100_000_000_000,
        pow10(15) == 1_000_000_000_000_000,
        pow10(17) == 100_000_000_000_000_000,
        pow10(18) == 1_000_000_000_000_000_000,
{
    assert(pow10(0) == 1);
    assert(pow10(1) == 10);
    assert(pow10(2) == 100);
    assert(pow10(3) == 1000);
    assert(pow10(4) == 10_000);
    assert(pow10(5) == 100_000);
    assert(pow10(6) == 1_000_000);
    assert(pow10(7) == 10_000_000);
    assert(pow10(8) == 100_000_000);
    assert(pow10(9) == 1_000_000_000);
    assert(pow10(10) == 10_000_000_000);
    assert(pow10(11) == 100_000_000_000);
    assert(pow10(12) == 1_000_000_000_000);
    assert(pow10(13) == 10_000_000_000_000);
    assert(pow10(14) == 100_000_000_000_000);
    assert(pow10(15) == 1_000_000_000_000_000);
    assert(pow10(16) == 10_000_000_000_000_000);
    assert(pow10(17) == 100_000_000_000_000_000);
    assert(pow10(18) == 1_000_000_000_000_000_000);
}

pub proof fn lemma_digits_value_bound(s: Seq<char>)
    requires
        all_digits(s),
    ensures
        0 <= digits_value(s) < pow10(s.len() as int),
    decreases s.len(),
{
    if s.len() == 0 {
    } else {
        lemma_digits_value_bound(s.drop_last());
        assert(is_digit(s[s.len() - 1]));
        lemma_pow10_pos(s.len() - 1);
        assert(digits_value(s.drop_last()) * 10 + 10 <= pow10(s.len() - 1) * 10) by {
            assert(digits_value(s.drop_last()) + 1 <= pow10(s.len() - 1));
            assert((digits_value(s.drop_last()) + 1) * 10 <= pow10(s.len() - 1) * 10)
                by (nonlinear_arith)
                requires digits_value(s.drop_last()) + 1 <= pow10(s.len() - 1);
        }
    }
}

// ---------------------------------------------------------------------------
// Trimming and parsing, executable
// ---------------------------------------------------------------------------

pub fn is_space_c(c: char) -> (r: bool)
    ensures
        r == is_space(c),
{
    c == ' ' || c == '\t'
}

pub fn is_digit_c(c: char) -> (r: bool)
    ensures
        r == is_digit(c),
{
    let u = c as u32;
    48 <= u && u <= 57
}

/// Numeric value of a digit character.
pub fn digit_of(c: char) -> (d: i64)
    requires
        is_digit(c),
    ensures
        d == digit_val(c),
        0 <= d <= 9,
{
    (c as u32) as i64 - 48
}

proof fn lemma_trim_start_len(s: Seq<char>)
    ensures
        trim_start(s).len() <= s.len(),
    decreases s.len(),
{
    if s.len() > 0 && is_space(s[0]) {
        lemma_trim_start_len(s.drop_first());
    }
}

proof fn lemma_trim_end_len(s: Seq<char>)
    ensures
        trim_end(s).len() <= s.len(),
    decreases s.len(),
{
    if s.len() > 0 && is_space(s.last()) {
        lemma_trim_end_len(s.drop_last());
    }
}

pub proof fn lemma_trim_len(s: Seq<char>)
    ensures
        trim(s).len() <= s.len(),
{
    lemma_trim_start_len(s);
    lemma_trim_end_len(trim_start(s));
}

/// Copy of the line with surrounding blanks removed.
pub fn trim_chars(w: &Vec<char>) -> (r: Vec<char>)
    ensures
        r@ == trim(w@),
        r@.len() <= w@.len(),
{
    let n = w.len();
    assert(w@.skip(0) =~= w@);
    let mut lo: usize = 0;
    while lo < n && is_space_c(w[lo])
        invariant
            0 <= lo <= n,
            n == w@.len(),
            trim_start(w@) == trim_start(w@.skip(lo as int)),
        decreases n - lo,
    {
        assert(w@.skip(lo as int).drop_first() =~= w@.skip(lo as int + 1));
        lo = lo + 1;
    }
    assert(trim_start(w@) == w@.skip(lo as int));
    let ghost t1 = w@.skip(lo as int);
    assert(t1.take(n - lo as int) =~= t1);
    let mut hi: usize = n;
    while hi > lo && is_space_c(w[hi - 1])
        invariant
            lo <= hi <= n,
            n == w@.len(),
            t1 == w@.skip(lo as int),
            trim_end(t1) == trim_end(t1.take(hi - lo as int)),
        decreases hi,
    {
        assert(t1.take(hi - lo as int).drop_last() =~= t1.take(hi - 1 - lo as int));
        assert(t1.take(hi - lo as int).last() == w@[hi - 1]);
        hi = hi - 1;
    }
    assert(trim_end(t1.take(hi - lo as int)) == t1.take(hi - lo as int));
    let r = field_chars(w, lo, hi);
    assert(r@ =~= t1.take(hi - lo as int));
    proof {
        lemma_trim_len(w@);
    }
    r
}

/// `dot_index` agrees with a left-to-right scan that stops at the
/// first `.`.
pub proof fn lemma_dot_index_at(s: Seq<char>, m: int)
    requires
        0 <= m <= s.len(),
        forall|j: int| 0 <= j < m ==> s[j] != '.',
        m == s.len() || s[m] == '.',
    ensures
        dot_index(s) == m,
    decreases m,
{
    if m > 0 {
        assert(s[0] != '.');
        lemma_dot_index_at(s.drop_first(), m - 1);
    } else {
        if s.len() > 0 {
            assert(s[0] == '.');
        }
    }
}

/// Parses a fixed-column integer field exactly as `parse_int_spec` reads
/// it.
pub fn parse_int_field(w: &Vec<char>) -> (r: Option<i64>)
    requires
        w@.len() <= 18,
    ensures
        match r {
            Some(v) => parse_int_spec(w@) == Some(v as int),
            None => parse_int_spec(w@) is None,
        },
{
    let t = trim_chars(w);
    let ghost tv = t@;
    let neg = t.len() > 0 && t[0] == '-';
    let start: usize = if t.len() > 0 && (t[0] == '-' || t[0] == '+') {
        1
    } else {
        0
    };
    let ghost d = unsigned_part(tv);
    assert(d =~= tv.skip(start as int));
    if t.len() == start {
        assert(d.len() == 0);
        return None;
    }
    let mut v: i64 = 0;
    let mut i: usize = start;
    proof {
        lemma_pow10_values();
    }
    while i < t.len()
        invariant
            start <= i <= t@.len(),
            t@ == tv,
            tv == trim(w@),
            d == unsigned_part(tv),
            t@.len() <= 18,
            d == tv.skip(start as int),
            all_digits(tv.subrange(start as int, i as int)),
            v == digits_value(tv.subrange(start as int, i as int)),
            0 <= v < pow10(i - start as int),
            pow10(18) == 1_000_000_000_000_000_000,
        decreases t@.len() - i,
    {
        let c = t[i];
        if !is_digit_c(c) {
            assert(d[i - start as int] == tv[i as int]);
            assert(!all_digits(d));
            return None;
        }
        let dv = digit_of(c);
        proof {
            lemma_pow10_mono(i - start as int, 17);
            lemma_pow10_values();
            assert(v * 10 <= (pow10(17) - 1) * 10) by (nonlinear_arith)
                requires 0 <= v <= pow10(17) - 1;
        }
        v = v * 10 + dv;
        proof {
            let pre = tv.subrange(start as int, i as int);
            let post = tv.subrange(start as int, i as int + 1);
            assert(post.drop_last() =~= pre);
            assert(post.last() == tv[i as int]);
            assert(v == digits_value(post));
            lemma_digits_value_bound(post);
        }
        i = i + 1;
    }
    assert(d =~= tv.subrange(start as int, tv.len() as int));
    assert(all_digits(d) && d.len() > 0);
    assert(v == digits_value(d));
    if neg {
        assert(sign_of(tv) == -1);
        Some(-v)
    } else {
        assert(sign_of(tv) == 1);
        Some(v)
    }
}

pub proof fn lemma_dot_index_le(s: Seq<char>)
    ensures
        0 <= dot_index(s) <= s.len(),
    decreases s.len(),
{
    if s.len() > 0 && s[0] != '.' {
        lemma_dot_index_le(s.drop_first());
    }
}

pub proof fn lemma_dot_index_props(s: Seq<char>)
    ensures
        0 <= dot_index(s) <= s.len(),
        dot_index(s) < s.len() ==> s[dot_index(s)] == '.',
        forall|j: int| 0 <= j < dot_index(s) ==> s[j] != '.',
    decreases s.len(),
{
    lemma_dot_index_le(s);
    if s.len() > 0 && s[0] != '.' {
        lemma_dot_index_props(s.drop_first());
        assert forall|j: int| 0 <= j < dot_index(s) implies s[j] != '.' by {
            if j > 0 {
                assert(s.drop_first()[j - 1] != '.');
            }
        }
    }
}

/// A well-formed fixed-column decimal with `mf` fraction digits is
/// bounded by the width of its field.
pub proof fn lemma_parse_fixed_bound(f: Seq<char>, mf: int)
    requires
        0 <= mf,
        parse_fixed_spec(f, mf) is Some,
    ensures
        -pow10(f.len() + mf) < parse_fixed_spec(f, mf)->Some_0 < pow10(f.len() + mf),
{
    let t = trim(f);
    let d = unsigned_part(t);
    let k = dot_index(d);
    let ip = d.subrange(0, k);
    let fp = if k == d.len() {
        Seq::<char>::empty()
    } else {
        d.subrange(k + 1, d.len() as int)
    };
    lemma_trim_len(f);
    lemma_dot_index_le(d);
    let ipl = ip.len() as int;
    let fpl = fp.len() as int;
    let div = digits_value(ip);
    let fv = digits_value(fp);
    let pa = pow10(ipl);
    let pb = pow10(fpl);
    let pm = pow10(mf);
    let pq = pow10(mf - fpl);
    lemma_digits_value_bound(ip);
    lemma_digits_value_bound(fp);
    lemma_pow10_pos(mf);
    lemma_pow10_pos(mf - fpl);
    lemma_pow10_add(fpl, mf - fpl);
    lemma_pow10_add(ipl, mf);
    assert(div * pm <= (pa - 1) * pm) by (nonlinear_arith)
        requires div <= pa - 1, pm >= 0;
    assert(fv * pq <= (pb - 1) * pq) by (nonlinear_arith)
        requires fv <= pb - 1, pq >= 0;
    assert((pa - 1) * pm + (pb - 1) * pq == pa * pm - pm + pb * pq - pq) by (nonlinear_arith);
    assert(pb * pq == pm);
    assert(div * pm + fv * pq <= pa * pm - pq);
    assert(div * pm >= 0) by (nonlinear_arith)
        requires div >= 0, pm >= 0;
    assert(fv * pq >= 0) by (nonlinear_arith)
        requires fv >= 0, pq >= 0;
    let mag = div * pm + fv * pq;
    assert(0 <= mag < pow10(ipl + mf));
    lemma_pow10_mono(ipl + mf, f.len() + mf);
}

/// Parses a fixed-column decimal field exactly as `parse_fixed_spec`
/// reads it, scaled to an integer by `pow10(max_frac)`.
#[verifier::rlimit(50)]
#[verifier::spinoff_prover]
pub fn parse_fixed_field(w: &Vec<char>, max_frac: usize) -> (r: Option<i64>)
    requires
        w@.len() <= 12,
        1 <= max_frac <= 3,
    ensures
        match r {
            Some(v) => parse_fixed_spec(w@, max_frac as int) == Some(v as int),
            None => parse_fixed_spec(w@, max_frac as int) is None,
        },
{
    let t = trim_chars(w);
    let ghost tv = t@;
    let neg = t.len() > 0 && t[0] == '-';
    let start: usize = if t.len() > 0 && (t[0] == '-' || t[0] == '+') {
        1
    } else {
        0
    };
    let ghost d = unsigned_part(tv);
    assert(d =~= tv.skip(start as int));
    proof {
        lemma_pow10_values();
    }
    // integer part: digits up to the first `.` or the end
    let mut iv: i64 = 0;
    let mut i: usize = start;
    while i < t.len() && t[i] != '.'
        invariant
            start <= i <= t@.len(),
            t@ == tv,
            tv == trim(w@),
            d == unsigned_part(tv),
            t@.len() <= 12,
            d == tv.skip(start as int),
            1 <= max_frac <= 3,
            all_digits(tv.subrange(start as int, i as int)),
            forall|j: int| start <= j < i ==> tv[j] != '.',
            iv == digits_value(tv.subrange(start as int, i as int)),
            0 <= iv < pow10(i - start as int),
            pow10(18) == 1_000_000_000_000_000_000,
        decreases t@.len() - i,
    {
        let c = t[i];
        if !is_digit_c(c) {
            // the field is malformed: `c` is neither a digit nor `.`, and
            // it lies in the integer part, before any `.`
            proof {
                let p = i - start as int;
                let k = dot_index(d);
                lemma_dot_index_props(d);
                assert(d[p] == tv[i as int]);
                if k <= p {
                    assert(d[k] == '.');
                    if k < p {
                        assert(tv[k + start as int] != '.');
                        assert(d[k] == tv[k + start as int]);
                    }
                    assert(false);
                }
                assert(d.subrange(0, k)[p] == d[p]);
                assert(!all_digits(d.subrange(0, k)));
            }
            return None;
        }
        let dv = digit_of(c);
        proof {
            lemma_pow10_mono(i - start as int, 17);
            lemma_pow10_values();
            assert(iv * 10 <= (pow10(17) - 1) * 10) by (nonlinear_arith)
                requires 0 <= iv <= pow10(17) - 1;
        }
        iv = iv * 10 + dv;
        proof {
            let pre = tv.subrange(start as int, i as int);
            let post = tv.subrange(start as int, i as int + 1);
            assert(post.drop_last() =~= pre);
            assert(post.last() == tv[i as int]);
            lemma_digits_value_bound(post);
        }
        i = i + 1;
    }
    let ip_digits: usize = i - start;
    proof {
        lemma_dot_index_at(d, ip_digits as int);
        assert(d.subrange(0, ip_digits as int) =~= tv.subrange(start as int, i as int));
    }
    let ghost ip = d.subrange(0, ip_digits as int);
    let ghost spec_fp = if dot_index(d) == d.len() {
        Seq::<char>::empty()
    } else {
        d.subrange(dot_index(d) + 1, d.len() as int)
    };
    let mut fv: i64 = 0;
    let mut fc: usize = 0;
    if i < t.len() {
        // skip the `.`
        i = i + 1;
        let ghost fstart = i;
        assert(d.subrange(ip_digits as int + 1, d.len() as int) =~= tv.subrange(
            fstart as int,
            tv.len() as int,
        ));
        let ghost fp = d.subrange(ip_digits as int + 1, d.len() as int);
        while i < t.len()
            invariant
                fstart <= i <= t@.len(),
                t@ == tv,
                tv == trim(w@),
                d == unsigned_part(tv),
                t@.len() <= 12,
                d == tv.skip(start as int),
                start + ip_digits + 1 == fstart,
                ip == d.subrange(0, ip_digits as int),
                fp == d.subrange(ip_digits as int + 1, d.len() as int),
                fp == tv.subrange(fstart as int, tv.len() as int),
                dot_index(d) == ip_digits,
                ip_digits < d.len(),
                all_digits(ip),
                iv == digits_value(ip),
                1 <= max_frac <= 3,
                fc == i - fstart,
                fc <= max_frac,
                all_digits(tv.subrange(fstart as int, i as int)),
                fv == digits_value(tv.subrange(fstart as int, i as int)),
                0 <= fv < pow10(fc as int),
                pow10(18) == 1_000_000_000_000_000_000,
            decreases t@.len() - i,
        {
            let c = t[i];
            if !is_digit_c(c) {
                proof {
                    assert(fp[i - fstart as int] == tv[i as int]);
                    assert(!all_digits(fp));
                }
                return None;
            }
            if fc == max_frac {
                proof {
                    assert(fp.len() > max_frac);
                }
                return None;
            }
            let dv = digit_of(c);
            proof {
                lemma_pow10_mono(fc as int, 17);
                lemma_pow10_values();
                assert(fv * 10 <= (pow10(17) - 1) * 10) by (nonlinear_arith)
                    requires 0 <= fv <= pow10(17) - 1;
            }
            fv = fv * 10 + dv;
            proof {
                let pre = tv.subrange(fstart as int, i as int);
                let post = tv.subrange(fstart as int, i as int + 1);
                assert(post.drop_last() =~= pre);
                assert(post.last() == tv[i as int]);
                lemma_digits_value_bound(post);
            }
            fc = fc + 1;
            i = i + 1;
        }
        assert(fp =~= tv.subrange(fstart as int, tv.len() as int));
        assert(spec_fp == fp);
        assert(all_digits(spec_fp) && spec_fp.len() == fc);
        assert(fv == digits_value(spec_fp));
        assert(0 <= fv < pow10(fc as int));
    } else {
        assert(ip_digits == d.len());
        assert(spec_fp =~= Seq::<char>::empty());
        assert(all_digits(spec_fp) && spec_fp.len() == fc);
        assert(fv == digits_value(spec_fp));
        assert(0 <= fv < pow10(fc as int)) by {
            lemma_pow10_pos(fc as int);
        }
    }
    if ip_digits == 0 && fc == 0 {
        return None;
    }
    let scale = pow10_exec(max_frac);
    let sub = pow10_exec(max_frac - fc);
    proof {
        lemma_pow10_values();
        lemma_pow10_mono(ip_digits as int, 12);
        lemma_pow10_mono(max_frac as int, 3);
        lemma_pow10_mono(max_frac as int - fc as int, 3);
        lemma_pow10_mono(fc as int, 3);
        assert(iv * scale <= (pow10(12) - 1) * 1000) by (nonlinear_arith)
            requires 0 <= iv <= pow10(12) - 1, 0 <= scale <= 1000;
        assert(fv * sub <= 1000 * 1000) by (nonlinear_arith)
            requires 0 <= fv <= 1000, 0 <= sub <= 1000;
        assert(iv * scale >= 0) by (nonlinear_arith)
            requires iv >= 0, scale >= 0;
        assert(fv * sub >= 0) by (nonlinear_arith)
            requires fv >= 0, sub >= 0;
    }
    let v = iv * scale + fv * sub;
    proof {
        assert(ip.len() + spec_fp.len() > 0);
        assert(all_digits(ip) && all_digits(spec_fp));
        assert(v == digits_value(ip) * pow10(max_frac as int) + digits_value(spec_fp) * pow10(
            max_frac as int - spec_fp.len(),
        ));
        assert(parse_fixed_spec(w@, max_frac as int) == Some(sign_of(tv) * (v as int)));
    }
    if neg {
        let r = -v;
        proof {
            assert(sign_of(tv) == -1);
            assert(r as int == -(v as int));
            assert((-1) * (v as int) == -(v as int)) by (nonlinear_arith);
            assert(sign_of(tv) * (v as int) == -(v as int));
            assert(parse_fixed_spec(w@, max_frac as int) == Some(r as int));
        }
        Some(r)
    } else {
        proof {
            assert(sign_of(tv) == 1);
            assert(sign_of(tv) * (v as int) == v as int);
            assert(parse_fixed_spec(w@, max_frac as int) == Some(v as int));
        }
        Some(v)
    }
}

/// Small powers of ten.
pub fn pow10_exec(n: usize) -> (r: i64)
    requires
        n <= 18,
    ensures
        r == pow10(n as int),
        r >= 1,
    decreases n,
{
    proof {
        lemma_pow10_values();
        lemma_pow10_pos(n as int - 1);
        lemma_pow10_mono(n as int - 1, 17);
    }
    if n == 0 {
        1
    } else {
        10 * pow10_exec(n - 1)
    }
}

// ---------------------------------------------------------------------------
// Line splitting
// ---------------------------------------------------------------------------

/// One trailing carriage return removed: a line that ended in `\r\n`
/// loses the `\r` along with the newline.
pub open spec fn strip_cr(l: Seq<char>) -> Seq<char> {
    if l.len() > 0 && l.last() == '\r' {
        l.drop_last()
    } else {
        l
    }
}

/// Worker for `split_lines`: remaining input, line under construction,
/// lines already complete.
pub open spec fn split_rec(s: Seq<char>, cur: Seq<char>, acc: Seq<Seq<char>>) -> Seq<Seq<char>>
    decreases s.len(),
{
    if s.len() == 0 {
        if cur.len() == 0 {
            acc
        } else {
            acc.push(cur)
        }
    } else if s[0] == '\n' {
        split_rec(s.drop_first(), Seq::<char>::empty(), acc.push(strip_cr(cur)))
    } else {
        split_rec(s.drop_first(), cur.push(s[0]), acc)
    }
}

/// The lines of a text, split at `\n`, each line losing its terminator
/// and a `\r` directly before it; a final fragment without a terminator
/// is kept as it stands, and a trailing newline produces no empty final
/// line.
pub open spec fn split_lines(s: Seq<char>) -> Seq<Seq<char>> {
    split_rec(s, Seq::<char>::empty(), Seq::<Seq<char>>::empty())
}

/// View of a vector of lines.
pub open spec fn lines_view(ls: Seq<Vec<char>>) -> Seq<Seq<char>> {
    ls.map_values(|l: Vec<char>| l@)
}

fn strip_cr_exec(l: Vec<char>) -> (r: Vec<char>)
    ensures
        r@ == strip_cr(l@),
{
    let mut l = l;
    if l.len() > 0 && l[l.len() - 1] == '\r' {
        l.pop();
    }
    l
}

/// Splits a text into its lines, as `split_lines` describes.
pub fn split_lines_exec(content: &Vec<char>) -> (r: Vec<Vec<char>>)
    ensures
        lines_view(r@) == split_lines(content@),
{
    let mut acc: Vec<Vec<char>> = Vec::new();
    let mut cur: Vec<char> = Vec::new();
    let mut i: usize = 0;
    assert(content@.skip(0) =~= content@);
    assert(lines_view(acc@) =~= Seq::<Seq<char>>::empty());
    while i < content.len()
        invariant
            0 <= i <= content@.len(),
            split_rec(content@.skip(i as int), cur@, lines_view(acc@)) == split_lines(content@),
        decreases content@.len() - i,
    {
        let ghost pre_rest = content@.skip(i as int);
        assert(pre_rest.drop_first() =~= content@.skip(i as int + 1));
        assert(pre_rest[0] == content@[i as int]);
        let c = content[i];
        if c == '\n' {
            let ghost cur_v = cur@;
            let done = strip_cr_exec(cur);
            let ghost old_acc = acc@;
            acc.push(done);
            cur = Vec::new();
            assert(lines_view(acc@) =~= lines_view(old_acc).push(strip_cr(cur_v)));
        } else {
            cur.push(c);
        }
        i = i + 1;
    }
    assert(content@.skip(content@.len() as int) =~= Seq::<char>::empty());
    if cur.len() > 0 {
        let ghost old_acc = acc@;
        let ghost cur_v = cur@;
        acc.push(cur);
        assert(lines_view(acc@) =~= lines_view(old_acc).push(cur_v));
    }
    acc
}

// ---------------------------------------------------------------------------
// Decimal formatting
// ---------------------------------------------------------------------------

pub open spec fn digit_char(d: int) -> char {
    if d == 0 { '0' } else if d == 1 { '1' } else if d == 2 { '2' } else if d == 3 { '3' }
    else if d == 4 { '4' } else if d == 5 { '5' } else if d == 6 { '6' } else if d == 7 { '7' }
    else if d == 8 { '8' } else {
        '9'
    }
}

/// Decimal digits of a non-negative integer, most significant first.
pub open spec fn int_digits(n: int) -> Seq<char>
    decreases n,
{
    if n < 10 {
        seq![digit_char(n)]
    } else {
        int_digits(n / 10).push(digit_char(n % 10))
    }
}

/// Decimal rendering of an integer, `-` before the digits of its
/// magnitude.
pub open spec fn int_str(n: int) -> Seq<char> {
    if n < 0 {
        seq!['-'] + int_digits(-n)
    } else {
        int_digits(n)
    }
}

pub open spec fn repeat_char(c: char, n: int) -> Seq<char> {
    if n <= 0 {
        Seq::<char>::empty()
    } else {
        Seq::<char>::new(n as nat, |i: int| c)
    }
}

/// Right-justified in a field of `w` blanks; a longer value is not
/// truncated.
pub open spec fn pad_left(s: Seq<char>, w: int) -> Seq<char> {
    if s.len() >= w {
        s
    } else {
        repeat_char(' ', w - s.len()) + s
    }
}

/// Left-justified in a field of `w` blanks; a longer value is not
/// truncated.
pub open spec fn pad_right(s: Seq<char>, w: int) -> Seq<char> {
    if s.len() >= w {
        s
    } else {
        s + repeat_char(' ', w - s.len())
    }
}

/// The fraction digits, zero-filled on the left to exactly `w` digits.
pub open spec fn zero_pad(s: Seq<char>, w: int) -> Seq<char> {
    if s.len() >= w {
        s
    } else {
        repeat_char('0', w - s.len()) + s
    }
}

/// Rendering of a fixed-point value held in units of `pow10(frac)`
/// parts, with exactly `frac` digits after the point.
pub open spec fn fixed_str(v: int, frac: int) -> Seq<char> {
    let m = if v < 0 { -v } else { v };
    let scale = pow10(frac);
    let sign = if v < 0 { seq!['-'] } else { Seq::<char>::empty() };
    sign + int_digits(m / scale) + seq!['.'] + zero_pad(int_digits(m % scale), frac)
}

fn digit_char_exec(d: i128) -> (r: char)
    requires
        0 <= d <= 9,
    ensures
        r == digit_char(d as int),
{
    if d == 0 { '0' } else if d == 1 { '1' } else if d == 2 { '2' } else if d == 3 { '3' }
    else if d == 4 { '4' } else if d == 5 { '5' } else if d == 6 { '6' } else if d == 7 { '7' }
    else if d == 8 { '8' } else {
        '9'
    }
}

/// The decimal digits of a non-negative value.
pub fn fmt_digits(n: i128) -> (r: Vec<char>)
    requires
        n >= 0,
    ensures
        r@ == int_digits(n as int),
    decreases n,
{
    if n < 10 {
        let mut r: Vec<char> = Vec::new();
        r.push(digit_char_exec(n));
        assert(r@ =~= seq![digit_char(n as int)]);
        r
    } else {
        let mut r = fmt_digits(n / 10);
        r.push(digit_char_exec(n % 10));
        r
    }
}

/// The decimal rendering of an integer.
pub fn fmt_int(n: i64) -> (r: Vec<char>)
    ensures
        r@ == int_str(n as int),
{
    if n < 0 {
        let m: i128 = -(n as i128);
        let mut r: Vec<char> = Vec::new();
        r.push('-');
        let mut d = fmt_digits(m);
        r.append(&mut d);
        assert(r@ =~= seq!['-'] + int_digits(m as int));
        r
    } else {
        fmt_digits(n as i128)
    }
}

/// Pads on the left with blanks to width `w`.
pub fn pad_left_exec(s: Vec<char>, w: usize) -> (r: Vec<char>)
    ensures
        r@ == pad_left(s@, w as int),
{
    let mut s = s;
    if s.len() >= w {
        return s;
    }
    let k = w - s.len();
    let mut r: Vec<char> = Vec::new();
    let mut i: usize = 0;
    while i < k
        invariant
            0 <= i <= k,
            r@ == repeat_char(' ', i as int),
        decreases k - i,
    {
        r.push(' ');
        assert(r@ =~= repeat_char(' ', i as int + 1));
        i = i + 1;
    }
    r.append(&mut s);
    r
}

/// Pads on the right with blanks to width `w`.
pub fn pad_right_exec(s: Vec<char>, w: usize) -> (r: Vec<char>)
    ensures
        r@ == pad_right(s@, w as int),
{
    let mut r = s;
    let ghost sv = r@;
    if r.len() >= w {
        return r;
    }
    let k = w - r.len();
    let mut i: usize = 0;
    while i < k
        invariant
            0 <= i <= k,
            r@ == sv + repeat_char(' ', i as int),
        decreases k - i,
    {
        r.push(' ');
        assert(r@ =~= sv + repeat_char(' ', i as int + 1));
        i = i + 1;
    }
    r
}

/// The fixed-point rendering of a value in units of `pow10(frac)`.
pub fn fmt_fixed(v: i64, frac: usize) -> (r: Vec<char>)
    requires
        1 <= frac <= 3,
    ensures
        r@ == fixed_str(v as int, frac as int),
{
    let neg = v < 0;
    let m: i128 = if v < 0 {
        -(v as i128)
    } else {
        v as i128
    };
    let scale: i128 = pow10_exec(frac) as i128;
    proof {
        lemma_pow10_values();
        lemma_pow10_mono(frac as int, 3);
        lemma_pow10_pos(frac as int);
    }
    let whole = m / scale;
    let part = m % scale;
    let mut r: Vec<char> = Vec::new();
    if neg {
        r.push('-');
        assert(r@ =~= seq!['-']);
    }
    let mut d = fmt_digits(whole);
    r.append(&mut d);
    r.push('.');
    let fd = fmt_digits(part);
    let ghost fdv = fd@;
    let mut zp: Vec<char> = Vec::new();
    let have = fd.len();
    if have < frac {
        let k = frac - have;
        let mut i: usize = 0;
        while i < k
            invariant
                0 <= i <= k,
                zp@ == repeat_char('0', i as int),
            decreases k - i,
        {
            zp.push('0');
            assert(zp@ =~= repeat_char('0', i as int + 1));
            i = i + 1;
        }
    }
    let mut fd = fd;
    zp.append(&mut fd);
    assert(zp@ =~= zero_pad(fdv, frac as int));
    let mut zp = zp;
    r.append(&mut zp);
    proof {
        assert(m as int == if (v as int) < 0 { -(v as int) } else { v as int });
        assert(r@ =~= fixed_str(v as int, frac as int));
    }
    r
}

// ---------------------------------------------------------------------------
// Whitespace tokenization
// ---------------------------------------------------------------------------

/// Characters that separate whitespace-delimited tokens.
pub open spec fn is_blank(c: char) -> bool {
    c == ' ' || c == '\t' || c == '\r' || c == '\n'
}

/// Worker for `tokens`: remaining input, token under construction,
/// tokens already complete.
pub open spec fn tokens_rec(s: Seq<char>, cur: Seq<char>, acc: Seq<Seq<char>>) -> Seq<Seq<char>>
    decreases s.len(),
{
    if s.len() == 0 {
        if cur.len() == 0 {
            acc
        } else {
            acc.push(cur)
        }
    } else if is_blank(s[0]) {
        if cur.len() == 0 {
            tokens_rec(s.drop_first(), cur, acc)
        } else {
            tokens_rec(s.drop_first(), Seq::<char>::empty(), acc.push(cur))
        }
    } else {
        tokens_rec(s.drop_first(), cur.push(s[0]), acc)
    }
}

/// The whitespace-delimited tokens of a line, in order; runs of blanks
/// produce no empty tokens.
pub open spec fn tokens(s: Seq<char>) -> Seq<Seq<char>> {
    tokens_rec(s, Seq::<char>::empty(), Seq::<Seq<char>>::empty())
}

/// Splits a line into its whitespace-delimited tokens, as `tokens`
/// describes.
pub fn tokens_exec(line: &Vec<char>) -> (r: Vec<Vec<char>>)
    ensures
        lines_view(r@) == tokens(line@),
{
    let mut acc: Vec<Vec<char>> = Vec::new();
    let mut cur: Vec<char> = Vec::new();
    let mut i: usize = 0;
    assert(line@.skip(0) =~= line@);
    assert(lines_view(acc@) =~= Seq::<Seq<char>>::empty());
    while i < line.len()
        invariant
            0 <= i <= line@.len(),
            tokens_rec(line@.skip(i as int), cur@, lines_view(acc@)) == tokens(line@),
        decreases line@.len() - i,
    {
        let ghost rest = line@.skip(i as int);
        assert(rest.drop_first() =~= line@.skip(i as int + 1));
        assert(rest[0] == line@[i as int]);
        let c = line[i];
        if c == ' ' || c == '\t' || c == '\r' || c == '\n' {
            if cur.len() > 0 {
                let ghost cur_v = cur@;
                let ghost old_acc = acc@;
                acc.push(cur);
                cur = Vec::new();
                assert(lines_view(acc@) =~= lines_view(old_acc).push(cur_v));
            }
        } else {
            cur.push(c);
        }
        i = i + 1;
    }
    assert(line@.skip(line@.len() as int) =~= Seq::<char>::empty());
    if cur.len() > 0 {
        let ghost old_acc = acc@;
        let ghost cur_v = cur@;
        acc.push(cur);
        assert(lines_view(acc@) =~= lines_view(old_acc).push(cur_v));
    }
    acc
}

// ---------------------------------------------------------------------------
// Substring search and replacement
// ---------------------------------------------------------------------------

pub open spec fn starts_with(s: Seq<char>, p: Seq<char>) -> bool {
    s.len() >= p.len() && s.subrange(0, p.len() as int) == p
}

/// Whether the line opens with the given keyword.
pub fn starts_with_exec(v: &Vec<char>, p: &str) -> (r: bool)
    ensures
        r == starts_with(v@, p@),
{
    let n = p.unicode_len();
    if v.len() < n {
        return false;
    }
    let prefix = field_chars(v, 0, n);
    assert(prefix@ =~= v@.subrange(0, n as int));
    chars_eq_str(&prefix, p)
}

/// Every non-overlapping occurrence of `pat`, scanned left to right,
/// replaced by `rep`.
pub open spec fn replace_all(s: Seq<char>, pat: Seq<char>, rep: Seq<char>) -> Seq<char>
    decreases s.len(),
    when pat.len() >= 1
{
    if s.len() < pat.len() {
        s
    } else if s.subrange(0, pat.len() as int) == pat {
        rep + replace_all(s.skip(pat.len() as int), pat, rep)
    } else {
        seq![s[0]] + replace_all(s.drop_first(), pat, rep)
    }
}

/// The first occurrence of `pat`, scanned left to right, replaced by
/// `rep`; everything after it kept as it stands.
pub open spec fn replace_first(s: Seq<char>, pat: Seq<char>, rep: Seq<char>) -> Seq<char>
    decreases s.len(),
    when pat.len() >= 1
{
    if s.len() < pat.len() {
        s
    } else if s.subrange(0, pat.len() as int) == pat {
        rep + s.skip(pat.len() as int)
    } else {
        seq![s[0]] + replace_first(s.drop_first(), pat, rep)
    }
}

/// Whether `pat` occurs at position `i`.
fn match_at(s: &Vec<char>, i: usize, pat: &Vec<char>) -> (r: bool)
    requires
        i <= s@.len(),
    ensures
        r == (i + pat@.len() <= s@.len() && s@.subrange(i as int, i as int + pat@.len())
            == pat@),
{
    if s.len() - i < pat.len() {
        return false;
    }
    let w = field_chars(s, i, i + pat.len());
    assert(w@ =~= s@.subrange(i as int, i as int + pat@.len()));
    let mut j: usize = 0;
    while j < pat.len()
        invariant
            0 <= j <= pat@.len(),
            w@ == s@.subrange(i as int, i as int + pat@.len()),
            i + pat@.len() <= s@.len(),
            forall|k: int| 0 <= k < j ==> w@[k] == pat@[k],
        decreases pat@.len() - j,
    {
        if w[j] != pat[j] {
            return false;
        }
        j = j + 1;
    }
    assert(w@ =~= pat@);
    true
}

/// Replaces every occurrence, as `replace_all` describes.
pub fn replace_all_exec(s: &Vec<char>, pat: &Vec<char>, rep: &Vec<char>) -> (r: Vec<char>)
    requires
        pat@.len() >= 1,
    ensures
        r@ == replace_all(s@, pat@, rep@),
{
    let mut out: Vec<char> = Vec::new();
    let mut i: usize = 0;
    assert(s@.skip(0) =~= s@);
    assert(out@ =~= Seq::<char>::empty());
    while i < s.len()
        invariant
            0 <= i <= s@.len(),
            pat@.len() >= 1,
            replace_all(s@, pat@, rep@) == out@ + replace_all(s@.skip(i as int), pat@, rep@),
        decreases s@.len() - i,
    {
        let ghost rest = s@.skip(i as int);
        if match_at(s, i, pat) {
            proof {
                assert(rest.subrange(0, pat@.len() as int) =~= s@.subrange(
                    i as int,
                    i as int + pat@.len(),
                ));
                assert(rest.skip(pat@.len() as int) =~= s@.skip(i as int + pat@.len() as int));
            }
            let mut piece: Vec<char> = Vec::new();
            let mut j: usize = 0;
            while j < rep.len()
                invariant
                    0 <= j <= rep@.len(),
                    piece@ == rep@.take(j as int),
                decreases rep@.len() - j,
            {
                piece.push(rep[j]);
                assert(piece@ =~= rep@.take(j as int + 1));
                j = j + 1;
            }
            assert(piece@ =~= rep@);
            out.append(&mut piece);
            i = i + pat.len();
        } else {
            proof {
                if rest.len() >= pat@.len() {
                    assert(rest.subrange(0, pat@.len() as int) =~= s@.subrange(
                        i as int,
                        i as int + pat@.len(),
                    ));
                }
                assert(rest.drop_first() =~= s@.skip(i as int + 1));
                assert(rest[0] == s@[i as int]);
            }
            let c = s[i];
            out.push(c);
            proof {
                if rest.len() < pat@.len() {
                    assert(replace_all(rest, pat@, rep@) == rest);
                    assert(replace_all(s@.skip(i as int + 1), pat@, rep@) == s@.skip(
                        i as int + 1,
                    ));
                    assert(rest =~= seq![s@[i as int]] + s@.skip(i as int + 1));
                }
            }
            i = i + 1;
        }
    }
    assert(s@.skip(s@.len() as int) =~= Seq::<char>::empty());
    out
}

/// Replaces the first occurrence, as `replace_first` describes.
pub fn replace_first_exec(s: &Vec<char>, pat: &Vec<char>, rep: &Vec<char>) -> (r: Vec<char>)
    requires
        pat@.len() >= 1,
    ensures
        r@ == replace_first(s@, pat@, rep@),
{
    let mut out: Vec<char> = Vec::new();
    let mut i: usize = 0;
    assert(s@.skip(0) =~= s@);
    assert(out@ =~= Seq::<char>::empty());
    while i < s.len()
        invariant
            0 <= i <= s@.len(),
            pat@.len() >= 1,
            replace_first(s@, pat@, rep@) == out@ + replace_first(s@.skip(i as int), pat@, rep@),
        decreases s@.len() - i,
    {
        let ghost rest = s@.skip(i as int);
        if match_at(s, i, pat) {
            proof {
                assert(rest.subrange(0, pat@.len() as int) =~= s@.subrange(
                    i as int,
                    i as int + pat@.len(),
                ));
                assert(rest.skip(pat@.len() as int) =~= s@.skip(i as int + pat@.len() as int));
            }
            let mut piece: Vec<char> = Vec::new();
            let mut j: usize = 0;
            while j < rep.len()
                invariant
                    0 <= j <= rep@.len(),
                    piece@ == rep@.take(j as int),
                decreases rep@.len() - j,
            {
                piece.push(rep[j]);
                assert(piece@ =~= rep@.take(j as int + 1));
                j = j + 1;
            }
            assert(piece@ =~= rep@);
            out.append(&mut piece);
            let mut k: usize = i + pat.len();
            assert(replace_first(s@, pat@, rep@) =~= out@ + s@.skip(k as int));
            while k < s.len()
                invariant
                    0 <= k <= s@.len(),
                    replace_first(s@, pat@, rep@) == out@ + s@.skip(k as int),
                decreases s@.len() - k,
            {
                proof {
                    assert(s@.skip(k as int) =~= seq![s@[k as int]] + s@.skip(k as int + 1));
                }
                let c = s[k];
                out.push(c);
                proof {
                    assert(out@ + s@.skip(k as int + 1) =~= replace_first(s@, pat@, rep@));
                }
                k = k + 1;
            }
            assert(s@.skip(s@.len() as int) =~= Seq::<char>::empty());
            assert(out@ =~= replace_first(s@, pat@, rep@));
            return out;
        } else {
            proof {
                if rest.len() >= pat@.len() {
                    assert(rest.subrange(0, pat@.len() as int) =~= s@.subrange(
                        i as int,
                        i as int + pat@.len(),
                    ));
                }
                assert(rest.drop_first() =~= s@.skip(i as int + 1));
                assert(rest[0] == s@[i as int]);
            }
            let c = s[i];
            out.push(c);
            proof {
                if rest.len() < pat@.len() {
                    assert(replace_first(rest, pat@, rep@) == rest);
                    assert(replace_first(s@.skip(i as int + 1), pat@, rep@) == s@.skip(
                        i as int + 1,
                    ));
                    assert(rest =~= seq![s@[i as int]] + s@.skip(i as int + 1));
                }
            }
            i = i + 1;
        }
    }
    assert(s@.skip(s@.len() as int) =~= Seq::<char>::empty());
    out
}

// ---------------------------------------------------------------------------
// Case folding for the letters of identifiers
// ---------------------------------------------------------------------------

/// One lower-case letter of the basic alphabet raised to upper case;
/// any other character is untouched.
pub open spec fn upper_char(c: char) -> char {
    if c == 'a' { 'A' } else if c == 'b' { 'B' } else if c == 'c' { 'C' } else if c == 'd' { 'D' }
    else if c == 'e' { 'E' } else if c == 'f' { 'F' } else if c == 'g' { 'G' } else if c == 'h' {
        'H'
    } else if c == 'i' { 'I' } else if c == 'j' { 'J' } else if c == 'k' { 'K' } else if c == 'l' {
        'L'
    } else if c == 'm' { 'M' } else if c == 'n' { 'N' } else if c == 'o' { 'O' } else if c == 'p' {
        'P'
    } else if c == 'q' { 'Q' } else if c == 'r' { 'R' } else if c == 's' { 'S' } else if c == 't' {
        'T'
    } else if c == 'u' { 'U' } else if c == 'v' { 'V' } else if c == 'w' { 'W' } else if c == 'x' {
        'X'
    } else if c == 'y' { 'Y' } else if c == 'z' { 'Z' } else {
        c
    }
}

/// A sequence with each letter raised to upper case.
pub open spec fn upper(s: Seq<char>) -> Seq<char> {
    s.map_values(|c: char| upper_char(c))
}

fn upper_char_exec(c: char) -> (r: char)
    ensures
        r == upper_char(c),
{
    match c {
        'a' => 'A',
        'b' => 'B',
        'c' => 'C',
        'd' => 'D',
        'e' => 'E',
        'f' => 'F',
        'g' => 'G',
        'h' => 'H',
        'i' => 'I',
        'j' => 'J',
        'k' => 'K',
        'l' => 'L',
        'm' => 'M',
        'n' => 'N',
        'o' => 'O',
        'p' => 'P',
        'q' => 'Q',
        'r' => 'R',
        's' => 'S',
        't' => 'T',
        'u' => 'U',
        'v' => 'V',
        'w' => 'W',
        'x' => 'X',
        'y' => 'Y',
        'z' => 'Z',
        _ => c,
    }
}

/// The string with each letter raised to upper case.
pub fn to_upper(s: &str) -> (r: String)
    ensures
        r@ == upper(s@),
{
    let chars = str_chars(s);
    let mut out: Vec<char> = Vec::new();
    assert(out@ =~= upper(chars@.take(0)));
    let mut i: usize = 0;
    while i < chars.len()
        invariant
            0 <= i <= chars@.len(),
            chars@ == s@,
            out@ == upper(chars@.take(i as int)),
        decreases chars@.len() - i,
    {
        let u = upper_char_exec(chars[i]);
        out.push(u);
        assert(out@ =~= upper(chars@.take(i as int + 1)));
        i = i + 1;
    }
    assert(chars@.take(chars@.len() as int) =~= chars@);
    chars_to_string(&out)
}

} // verus!
