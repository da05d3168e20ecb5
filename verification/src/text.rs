//! ASCII text groundwork: printable bytes, separator splitting and decimal
//! numerals, as specification functions with their executable counterparts.

use vstd::prelude::*;

verus! {

/// The protocol is printable-ASCII text; anything else in a frame is
/// malformed.
pub open spec fn is_printable_byte(b: u8) -> bool {
    0x20 <= b <= 0x7e
}

pub open spec fn all_printable(bs: Seq<u8>) -> bool {
    forall|i: int| 0 <= i < bs.len() ==> is_printable_byte(#[trigger] bs[i])
}

/// The characters an ASCII byte sequence spells.
pub open spec fn chars_of_ascii(bs: Seq<u8>) -> Seq<char> {
    bs.map_values(|b: u8| b as char)
}

/// Index of the first occurrence of `c` in `s`, if any.
pub open spec fn spec_find(s: Seq<char>, c: char) -> Option<int>
    decreases s.len(),
{
    if s.len() == 0 {
        None
    } else if s[0] == c {
        Some(0)
    } else {
        match spec_find(s.skip(1), c) {
            Some(k) => Some(k + 1),
            None => None,
        }
    }
}

pub proof fn lemma_spec_find(s: Seq<char>, c: char)
    ensures
        match spec_find(s, c) {
            Some(k) => 0 <= k < s.len() && s[k] == c && forall|i: int|
                0 <= i < k ==> s[i] != c,
            None => forall|i: int| 0 <= i < s.len() ==> s[i] != c,
        },
    decreases s.len(),
{
    if s.len() != 0 && s[0] != c {
        lemma_spec_find(s.skip(1), c);
        match spec_find(s.skip(1), c) {
            Some(k) => {
                assert(s[k + 1] == s.skip(1)[k]);
                assert forall|i: int| 0 <= i < k + 1 implies s[i] != c by {
                    if i > 0 {
                        assert(s[i] == s.skip(1)[i - 1]);
                    }
                }
            },
            None => {
                assert forall|i: int| 0 <= i < s.len() implies s[i] != c by {
                    if i > 0 {
                        assert(s[i] == s.skip(1)[i - 1]);
                    }
                }
            },
        }
    }
}

/// The characterization is exact: a first occurrence at `k` pins the result.
pub proof fn lemma_spec_find_at(s: Seq<char>, c: char, k: int)
    requires
        0 <= k < s.len(),
        s[k] == c,
        forall|i: int| 0 <= i < k ==> s[i] != c,
    ensures
        spec_find(s, c) == Some(k),
    decreases k,
{
    if k > 0 {
        assert forall|i: int| 0 <= i < k - 1 implies s.skip(1)[i] != c by {
            assert(s.skip(1)[i] == s[i + 1]);
        }
        assert(s.skip(1)[k - 1] == s[k]);
        lemma_spec_find_at(s.skip(1), c, k - 1);
    }
}

pub proof fn lemma_spec_find_none(s: Seq<char>, c: char)
    requires
        forall|i: int| 0 <= i < s.len() ==> s[i] != c,
    ensures
        spec_find(s, c) == None::<int>,
    decreases s.len(),
{
    if s.len() > 0 {
        assert forall|i: int| 0 <= i < s.skip(1).len() implies s.skip(1)[i] != c by {
            assert(s.skip(1)[i] == s[i + 1]);
        }
        lemma_spec_find_none(s.skip(1), c);
    }
}

/// Fields of `s` separated by `c`; always at least one field.
pub open spec fn spec_split(s: Seq<char>, c: char) -> Seq<Seq<char>>
    decreases s.len(),
{
    if s.len() == 0 {
        seq![Seq::<char>::empty()]
    } else if s[0] == c {
        seq![Seq::<char>::empty()] + spec_split(s.skip(1), c)
    } else {
        let r = spec_split(s.skip(1), c);
        r.update(0, seq![s[0]] + r[0])
    }
}

pub proof fn lemma_spec_split_len(s: Seq<char>, c: char)
    ensures
        spec_split(s, c).len() >= 1,
    decreases s.len(),
{
    if s.len() != 0 {
        lemma_spec_split_len(s.skip(1), c);
    }
}

/// A sequence without the separator is one single field.
pub proof fn lemma_spec_split_whole(s: Seq<char>, c: char)
    requires
        forall|i: int| 0 <= i < s.len() ==> s[i] != c,
    ensures
        spec_split(s, c) =~= seq![s],
    decreases s.len(),
{
    if s.len() != 0 {
        assert forall|i: int| 0 <= i < s.skip(1).len() implies s.skip(1)[i] != c by {
            assert(s.skip(1)[i] == s[i + 1]);
        }
        lemma_spec_split_whole(s.skip(1), c);
        let r = spec_split(s.skip(1), c);
        assert(r[0] == s.skip(1));
        assert(s[0] != c);
        assert(spec_split(s, c) == r.update(0, seq![s[0]] + r[0]));
        assert(seq![s[0]] + s.skip(1) =~= s);
        assert(spec_split(s, c)[0] == s);
        assert(spec_split(s, c).len() == 1);
        assert(seq![s][0] == s);
    } else {
        assert(s =~= Seq::<char>::empty());
    }
}

/// Splitting `a + [c] + rest` when `a` holds no separator peels `a` off as
/// the first field.
pub proof fn lemma_spec_split_peel(a: Seq<char>, c: char, rest: Seq<char>)
    requires
        forall|i: int| 0 <= i < a.len() ==> a[i] != c,
    ensures
        spec_split(a + seq![c] + rest, c) =~= seq![a] + spec_split(rest, c),
    decreases a.len(),
{
    let s = a + seq![c] + rest;
    lemma_spec_split_len(rest, c);
    if a.len() == 0 {
        assert(s =~= seq![c] + rest);
        assert(s[0] == c);
        assert(s.skip(1) =~= rest);
        assert(a =~= Seq::<char>::empty());
        assert(spec_split(s, c) == seq![Seq::<char>::empty()] + spec_split(rest, c));
    } else {
        assert(s[0] == a[0]);
        assert(s[0] != c);
        assert(s.skip(1) =~= a.skip(1) + seq![c] + rest);
        assert forall|i: int| 0 <= i < a.skip(1).len() implies a.skip(1)[i] != c by {
            assert(a.skip(1)[i] == a[i + 1]);
        }
        lemma_spec_split_peel(a.skip(1), c, rest);
        let r = spec_split(s.skip(1), c);
        assert(r =~= seq![a.skip(1)] + spec_split(rest, c));
        assert(r[0] == a.skip(1));
        assert(spec_split(s, c) == r.update(0, seq![s[0]] + r[0]));
        assert(seq![s[0]] + a.skip(1) =~= a);
        assert(spec_split(s, c)[0] == a);
        assert(spec_split(s, c).len() == seq![a].len() + spec_split(rest, c).len());
        assert forall|i: int| 1 <= i < spec_split(s, c).len() implies spec_split(s, c)[i]
            == (seq![a] + spec_split(rest, c))[i] by {
            assert(spec_split(s, c)[i] == r[i]);
            assert(r[i] == (seq![a.skip(1)] + spec_split(rest, c))[i]);
        }
    }
}

// --- decimal numerals ---

pub open spec fn is_digit_char(c: char) -> bool {
    0x30 <= c as u32 <= 0x39
}

pub open spec fn digit_val(c: char) -> int {
    c as u32 - 0x30
}

pub open spec fn digit_char_of(d: int) -> char {
    ((0x30 + d) as u8) as char
}

/// The canonical decimal numeral of `n`: no sign, no leading zero.
pub open spec fn spec_digits(n: nat) -> Seq<char>
    decreases n,
{
    if n < 10 {
        seq![digit_char_of(n as int)]
    } else {
        spec_digits(n / 10).push(digit_char_of((n % 10) as int))
    }
}

/// The canonical decimal numeral of an integer, '-'-prefixed when negative.
pub open spec fn spec_int_chars(n: int) -> Seq<char> {
    if n < 0 {
        seq!['-'] + spec_digits((-n) as nat)
    } else {
        spec_digits(n as nat)
    }
}

pub open spec fn all_digit_chars(ds: Seq<char>) -> bool {
    forall|i: int| 0 <= i < ds.len() ==> is_digit_char(#[trigger] ds[i])
}

/// The value a digit string denotes, most significant digit first.
pub open spec fn digits_val(ds: Seq<char>) -> int
    decreases ds.len(),
{
    if ds.len() == 0 {
        0
    } else {
        digits_val(ds.drop_last()) * 10 + digit_val(ds.last())
    }
}

pub proof fn lemma_spec_digits_wf(n: nat)
    ensures
        spec_digits(n).len() >= 1,
        all_digit_chars(spec_digits(n)),
        digits_val(spec_digits(n)) == n,
    decreases n,
{
    if n < 10 {
        assert(is_digit_char(digit_char_of(n as int)));
        assert(digit_val(digit_char_of(n as int)) == n);
        assert(spec_digits(n).drop_last() =~= Seq::<char>::empty());
        assert(spec_digits(n).last() == digit_char_of(n as int));
        assert(digits_val(spec_digits(n)) == digits_val(spec_digits(n).drop_last()) * 10
            + digit_val(spec_digits(n).last()));
    } else {
        lemma_spec_digits_wf(n / 10);
        let ds = spec_digits(n / 10);
        let c = digit_char_of((n % 10) as int);
        assert(is_digit_char(c));
        assert(digit_val(c) == n % 10);
        assert(ds.push(c).drop_last() =~= ds);
        assert(ds.push(c).last() == c);
        assert forall|i: int| 0 <= i < ds.push(c).len() implies is_digit_char(
            #[trigger] ds.push(c)[i],
        ) by {
            if i < ds.len() {
                assert(ds.push(c)[i] == ds[i]);
            }
        }
        assert(digits_val(spec_digits(n)) == (n / 10) * 10 + n % 10);
    }
}

pub proof fn lemma_digits_val_nonneg(ds: Seq<char>)
    requires
        all_digit_chars(ds),
    ensures
        digits_val(ds) >= 0,
    decreases ds.len(),
{
    if ds.len() > 0 {
        assert forall|i: int| 0 <= i < ds.drop_last().len() implies is_digit_char(
            #[trigger] ds.drop_last()[i],
        ) by {
            assert(ds.drop_last()[i] == ds[i]);
        }
        lemma_digits_val_nonneg(ds.drop_last());
        assert(digit_val(ds.last()) >= 0);
    }
}

/// The denoted value only grows as more digits are read.
pub proof fn lemma_digits_val_mono(ds: Seq<char>, i: int, j: int)
    requires
        0 <= i <= j <= ds.len(),
        forall|p: int| 0 <= p < j ==> is_digit_char(#[trigger] ds[p]),
    ensures
        digits_val(ds.take(i)) <= digits_val(ds.take(j)),
    decreases j - i,
{
    if i < j {
        lemma_digits_val_mono(ds, i, j - 1);
        let t = ds.take(j);
        assert(t.drop_last() =~= ds.take(j - 1));
        assert(t.last() == ds[j - 1]);
        assert forall|p: int| 0 <= p < ds.take(j - 1).len() implies is_digit_char(
            #[trigger] ds.take(j - 1)[p],
        ) by {
            assert(ds.take(j - 1)[p] == ds[p]);
        }
        lemma_digits_val_nonneg(ds.take(j - 1));
        assert(digits_val(t) == digits_val(ds.take(j - 1)) * 10 + digit_val(ds[j - 1]));
        assert(digits_val(ds.take(j - 1)) * 10 >= digits_val(ds.take(j - 1)));
    }
}

/// Length of the digit run that opens `s`.
pub open spec fn spec_digit_run(s: Seq<char>) -> int
    decreases s.len(),
{
    if s.len() > 0 && is_digit_char(s[0]) {
        1 + spec_digit_run(s.skip(1))
    } else {
        0
    }
}

pub proof fn lemma_digit_run_is(s: Seq<char>, k: int)
    requires
        0 <= k <= s.len(),
        forall|i: int| 0 <= i < k ==> is_digit_char(#[trigger] s[i]),
        k == s.len() || !is_digit_char(s[k]),
    ensures
        spec_digit_run(s) == k,
    decreases s.len(),
{
    if s.len() > 0 && is_digit_char(s[0]) {
        assert(k > 0);
        assert forall|i: int| 0 <= i < k - 1 implies is_digit_char(#[trigger] s.skip(1)[i]) by {
            assert(s.skip(1)[i] == s[i + 1]);
        }
        if k - 1 < s.skip(1).len() {
            assert(s.skip(1)[k - 1] == s[k]);
        }
        lemma_digit_run_is(s.skip(1), k - 1);
    } else {
        assert(k == 0);
    }
}

/// What reading an unsigned decimal prefix of `s` yields: the value and the
/// number of characters consumed; nothing on an empty run or on a value
/// beyond `u64::MAX`.
pub open spec fn spec_scan_u64(s: Seq<char>) -> Option<(u64, int)> {
    let k = spec_digit_run(s);
    if k == 0 {
        None
    } else if digits_val(s.take(k)) > u64::MAX {
        None
    } else {
        Some((digits_val(s.take(k)) as u64, k))
    }
}

/// What reading a signed decimal prefix of `s` yields; a lone '-' or a value
/// outside `i64` yields nothing.
pub open spec fn spec_scan_i64(s: Seq<char>) -> Option<(i64, int)> {
    if s.len() > 0 && s[0] == '-' {
        match spec_scan_u64(s.skip(1)) {
            Some((n, k)) => if n > 0x8000000000000000u64 {
                None
            } else {
                Some(((-(n as int)) as i64, k + 1))
            },
            None => None,
        }
    } else {
        match spec_scan_u64(s) {
            Some((n, k)) => if n > i64::MAX as u64 {
                None
            } else {
                Some((n as i64, k))
            },
            None => None,
        }
    }
}

/// Reading the canonical numeral back yields the value it was printed from.
pub proof fn lemma_scan_of_digits(n: nat, rest: Seq<char>)
    requires
        n <= u64::MAX,
        rest.len() == 0 || !is_digit_char(rest[0]),
    ensures
        spec_scan_u64(spec_digits(n) + rest) == Some((n as u64, spec_digits(n).len() as int)),
{
    let ds = spec_digits(n);
    lemma_spec_digits_wf(n);
    let s = ds + rest;
    assert forall|i: int| 0 <= i < ds.len() implies is_digit_char(#[trigger] s[i]) by {
        assert(s[i] == ds[i]);
    }
    if (ds.len() as int) < s.len() {
        assert(s[ds.len() as int] == rest[0]);
    }
    lemma_digit_run_is(s, ds.len() as int);
    assert(s.take(ds.len() as int) =~= ds);
}

/// The signed form of the same round trip.
pub proof fn lemma_scan_of_int(n: int, rest: Seq<char>)
    requires
        i64::MIN <= n <= i64::MAX,
        rest.len() == 0 || !is_digit_char(rest[0]),
    ensures
        spec_scan_i64(spec_int_chars(n) + rest) == Some(
            (n as i64, spec_int_chars(n).len() as int),
        ),
{
    let s = spec_int_chars(n) + rest;
    if n >= 0 {
        lemma_scan_of_digits(n as nat, rest);
        lemma_spec_digits_wf(n as nat);
        assert(s == spec_digits(n as nat) + rest);
        assert(s[0] == spec_digits(n as nat)[0]);
        assert(is_digit_char(s[0]));
        assert(s[0] != '-');
    } else {
        let m = (-n) as nat;
        lemma_scan_of_digits(m, rest);
        lemma_spec_digits_wf(m);
        assert(spec_int_chars(n) == seq!['-'] + spec_digits(m));
        assert(s[0] == (seq!['-'] + spec_digits(m))[0]);
        assert(s[0] == '-');
        assert(s.skip(1) =~= spec_digits(m) + rest);
        assert(m <= 0x8000000000000000);
        assert((-(m as int)) as i64 == n as i64);
    }
}

// --- executable counterparts ---

/// Relies on `String::push`: appends the given character to the string.
#[verifier::external_body]
pub(crate) fn push_char(s: &mut String, c: char)
    ensures
        final(s)@ == old(s)@.push(c),
{
    s.push(c);
}

/// Append the canonical decimal numeral of `n`.
pub fn push_u64_digits(s: &mut String, n: u64)
    ensures
        final(s)@ == old(s)@ + spec_digits(n as nat),
    decreases n,
{
    if n < 10 {
        let c = (0x30u8 + n as u8) as char;
        push_char(s, c);
        proof {
            assert(c == digit_char_of(n as int));
            assert(old(s)@ + spec_digits(n as nat) =~= old(s)@.push(c));
        }
    } else {
        push_u64_digits(s, n / 10);
        let c = (0x30u8 + (n % 10) as u8) as char;
        push_char(s, c);
        proof {
            assert(c == digit_char_of((n as nat % 10) as int));
            assert(spec_digits(n as nat) == spec_digits(n as nat / 10).push(c));
            assert((old(s)@ + spec_digits(n as nat / 10)).push(c) =~= old(s)@ + spec_digits(
                n as nat,
            ));
        }
    }
}

/// Append the canonical decimal numeral of a signed value.
pub fn push_i64_chars(s: &mut String, n: i64)
    ensures
        final(s)@ == old(s)@ + spec_int_chars(n as int),
{
    if n >= 0 {
        push_u64_digits(s, n as u64);
    } else {
        push_char(s, '-');
        let m: u64 = if n == i64::MIN {
            9223372036854775808u64
        } else {
            (-n) as u64
        };
        assert(m as int == -(n as int));
        push_u64_digits(s, m);
        proof {
            assert(old(s)@.push('-') + spec_digits(m as nat) =~= old(s)@ + (seq!['-']
                + spec_digits((-(n as int)) as nat)));
        }
    }
}

/// The characters of a string slice, as an indexable vector.
pub fn str_chars(s: &str) -> (r: Vec<char>)
    ensures
        r@ == s@,
{
    let n = s.unicode_len();
    let mut r: Vec<char> = Vec::new();
    let mut i: usize = 0;
    while i < n
        invariant
            i <= n,
            n == s@.len(),
            r@ == s@.take(i as int),
        decreases n - i,
    {
        r.push(s.get_char(i));
        proof {
            assert(s@.take(i as int).push(s@[i as int]) =~= s@.take(i + 1));
        }
        i = i + 1;
    }
    proof {
        assert(s@.take(n as int) =~= s@);
    }
    r
}

/// A copy of `v[from..to]`.
pub fn sub_chars(v: &[char], from: usize, to: usize) -> (r: Vec<char>)
    requires
        from <= to <= v@.len(),
    ensures
        r@ == v@.subrange(from as int, to as int),
{
    let mut r: Vec<char> = Vec::new();
    let mut i: usize = from;
    assert(r@ =~= v@.subrange(from as int, from as int));
    while i < to
        invariant
            from <= i <= to <= v@.len(),
            r@ == v@.subrange(from as int, i as int),
        decreases to - i,
    {
        r.push(v[i]);
        proof {
            assert(v@.subrange(from as int, i as int).push(v@[i as int]) =~= v@.subrange(
                from as int,
                i + 1,
            ));
        }
        i = i + 1;
    }
    r
}

/// The characters of `v[from..to]`, as an owned string.
pub fn string_from_chars(v: &[char], from: usize, to: usize) -> (r: String)
    requires
        from <= to <= v@.len(),
    ensures
        r@ == v@.subrange(from as int, to as int),
{
    let mut r = String::new();
    assert(r@ =~= v@.subrange(from as int, from as int));
    let mut i: usize = from;
    while i < to
        invariant
            from <= i <= to <= v@.len(),
            r@ == v@.subrange(from as int, i as int),
        decreases to - i,
    {
        push_char(&mut r, v[i]);
        proof {
            assert(v@.subrange(from as int, i as int).push(v@[i as int]) =~= v@.subrange(
                from as int,
                i + 1,
            ));
        }
        i = i + 1;
    }
    r
}

/// Check a frame for the printable-ASCII discipline and spell it as
/// characters; anything else is malformed.
pub fn frame_chars(buf: &[u8]) -> (r: Option<Vec<char>>)
    ensures
        match r {
            Some(v) => all_printable(buf@) && v@ == chars_of_ascii(buf@),
            None => !all_printable(buf@),
        },
{
    let n = buf.len();
    let mut v: Vec<char> = Vec::new();
    let mut i: usize = 0;
    while i < n
        invariant
            i <= n,
            n == buf@.len(),
            v@.len() == i,
            forall|j: int| 0 <= j < i ==> is_printable_byte(#[trigger] buf@[j]),
            forall|j: int| 0 <= j < i ==> v@[j] == buf@[j] as char,
        decreases n - i,
    {
        let b = buf[i];
        if b < 0x20 || b > 0x7e {
            return None;
        }
        v.push(b as char);
        i = i + 1;
    }
    proof {
        assert(v@ =~= chars_of_ascii(buf@));
    }
    Some(v)
}

/// Do the characters of `lit` stand at position `at` of `v`?
pub(crate) fn match_lit(v: &[char], at: usize, lit: &str) -> (r: bool)
    requires
        at <= v@.len(),
    ensures
        r <==> (at + lit@.len() <= v@.len() && v@.subrange(at as int, at + lit@.len()) == lit@),
{
    let m = lit.unicode_len();
    let vn = v.len();
    if m > vn - at {
        return false;
    }
    let mut i: usize = 0;
    while i < m
        invariant
            i <= m,
            vn == v@.len(),
            at + m <= vn,
            m == lit@.len(),
            forall|j: int| 0 <= j < i ==> v@[at + j] == lit@[j],
        decreases m - i,
    {
        let c = lit.get_char(i);
        if v[at + i] != c {
            proof {
                assert(v@.subrange(at as int, at + lit@.len())[i as int] == v@[at + i]);
            }
            return false;
        }
        i = i + 1;
    }
    proof {
        assert(v@.subrange(at as int, at + lit@.len()) =~= lit@);
    }
    true
}

/// Read an unsigned decimal run beginning at `start`; yields the value and
/// the index just past it.
pub fn scan_u64(v: &[char], start: usize) -> (r: Option<(u64, usize)>)
    requires
        start <= v@.len(),
    ensures
        match r {
            Some(p) => start < p.1 <= v@.len() && spec_scan_u64(v@.skip(start as int)) == Some(
                (p.0, p.1 - start as int),
            ),
            None => spec_scan_u64(v@.skip(start as int)) is None,
        },
{
    let ghost s = v@.skip(start as int);
    proof {
        assert forall|p: int| 0 <= p < s.len() implies s[p] == v@[p + start] by {}
    }
    let n = v.len();
    let mut k: usize = start;
    while k < n && 0x30 <= v[k] as u32 && v[k] as u32 <= 0x39
        invariant
            start <= k <= n,
            n == v@.len(),
            forall|j: int| start <= j < k ==> is_digit_char(#[trigger] v@[j]),
        decreases n - k,
    {
        k = k + 1;
    }
    let ghost run = k - start;
    proof {
        assert forall|p: int| 0 <= p < run implies is_digit_char(#[trigger] s[p]) by {
            assert(s[p] == v@[p + start]);
        }
        if run < s.len() {
            assert(s[run] == v@[k as int]);
        }
        lemma_digit_run_is(s, run);
    }
    if k == start {
        return None;
    }
    let mut acc: u64 = 0;
    let mut i: usize = start;
    assert(s.take(0) =~= Seq::<char>::empty());
    while i < k
        invariant
            start <= i <= k <= n,
            n == v@.len(),
            s == v@.skip(start as int),
            run == k - start,
            spec_digit_run(s) == run,
            forall|j: int| start <= j < k ==> is_digit_char(#[trigger] v@[j]),
            acc == digits_val(s.take(i - start)),
        decreases k - i,
    {
        let d = (v[i] as u32 - 0x30) as u64;
        proof {
            assert(s[i - start] == v@[i as int]);
            assert(is_digit_char(s[i - start]));
            assert(d == digit_val(s[i - start]));
            assert(s.take(i - start + 1).drop_last() =~= s.take(i - start));
            assert(s.take(i - start + 1).last() == s[i - start]);
        }
        let stepped = match acc.checked_mul(10) {
            Some(m) => m.checked_add(d),
            None => None,
        };
        match stepped {
            Some(a2) => {
                acc = a2;
                i = i + 1;
            },
            None => {
                proof {
                    assert(digits_val(s.take(i - start + 1)) > u64::MAX);
                    lemma_digits_val_mono(s, i - start + 1, run);
                    assert(s.take(run) == s.take(spec_digit_run(s)));
                }
                return None;
            },
        }
    }
    proof {
        assert(s.take(run) == s.take(spec_digit_run(s)));
        assert(digits_val(s.take(run)) == acc);
    }
    Some((acc, k))
}

/// What a whole `;`-delimited field denotes as an unsigned number: it must
/// be one or more digits and fit, else nothing.
pub open spec fn spec_parse_field_u64(f: Seq<char>) -> Option<u64> {
    if f.len() > 0 && all_digit_chars(f) && digits_val(f) <= u64::MAX {
        Some(digits_val(f) as u64)
    } else {
        None
    }
}

/// Parse the whole range `v[from..to]` as an unsigned decimal field.
pub fn parse_field_u64(v: &[char], from: usize, to: usize) -> (r: Option<u64>)
    requires
        from <= to <= v@.len(),
    ensures
        r == spec_parse_field_u64(v@.subrange(from as int, to as int)),
{
    let ghost f = v@.subrange(from as int, to as int);
    if from == to {
        return None;
    }
    let mut acc: u64 = 0;
    let mut i: usize = from;
    assert(f.take(0) =~= Seq::<char>::empty());
    while i < to
        invariant
            from <= i <= to <= v@.len(),
            f == v@.subrange(from as int, to as int),
            forall|j: int| 0 <= j < i - from ==> is_digit_char(#[trigger] f[j]),
            acc == digits_val(f.take(i - from)),
        decreases to - i,
    {
        let c = v[i];
        proof {
            assert(f[i - from] == v@[i as int]);
        }
        let u = c as u32;
        if u < 0x30 || u > 0x39 {
            return None;
        }
        let d = (u - 0x30) as u64;
        proof {
            assert(d == digit_val(f[i - from]));
            assert(f.take(i - from + 1).drop_last() =~= f.take(i - from));
            assert(f.take(i - from + 1).last() == f[i - from]);
        }
        let stepped = match acc.checked_mul(10) {
            Some(m) => m.checked_add(d),
            None => None,
        };
        match stepped {
            Some(a2) => {
                acc = a2;
                i = i + 1;
            },
            None => {
                proof {
                    if all_digit_chars(f) {
                        assert(digits_val(f.take(i - from + 1)) > u64::MAX);
                        lemma_digits_val_mono(f, i - from + 1, f.len() as int);
                        assert(f.take(f.len() as int) =~= f);
                    }
                }
                return None;
            },
        }
    }
    proof {
        assert(f.take(f.len() as int) =~= f);
    }
    Some(acc)
}

/// Find `c` at or after `from`.
pub fn find_char_from(v: &[char], from: usize, c: char) -> (r: Option<usize>)
    requires
        from <= v@.len(),
    ensures
        match r {
            Some(k) => from <= k < v@.len() && spec_find(v@.skip(from as int), c) == Some(
                k - from as int,
            ),
            None => spec_find(v@.skip(from as int), c) is None,
        },
{
    let ghost s = v@.skip(from as int);
    let n = v.len();
    let mut i: usize = from;
    while i < n
        invariant
            from <= i <= n,
            n == v@.len(),
            s == v@.skip(from as int),
            forall|j: int| from <= j < i ==> v@[j] != c,
        decreases n - i,
    {
        if v[i] == c {
            proof {
                assert(s.len() == v@.len() - from);
                assert forall|j: int| 0 <= j < i - from implies s[j] != c by {
                    assert(s[j] == v@[j + from]);
                }
                assert(s[i - from] == v@[i as int]);
                lemma_spec_find_at(s, c, i - from);
            }
            return Some(i);
        }
        i = i + 1;
    }
    proof {
        assert forall|j: int| 0 <= j < s.len() implies s[j] != c by {
            assert(s[j] == v@[j + from]);
        }
        lemma_spec_find_none(s, c);
    }
    None
}

/// The `sep`-delimited fields of `v[from..]`, as index ranges in `v`.
pub fn split_ranges(v: &[char], from: usize, sep: char) -> (r: Vec<(usize, usize)>)
    requires
        from <= v@.len(),
    ensures
        ({
            let fs = spec_split(v@.skip(from as int), sep);
            &&& r@.len() == fs.len()
            &&& forall|i: int|
                0 <= i < r@.len() ==> from <= (#[trigger] r@[i]).0 <= r@[i].1 <= v@.len()
                    && v@.subrange(r@[i].0 as int, r@[i].1 as int) == fs[i]
        }),
    decreases v@.len() - from,
{
    let ghost s = v@.skip(from as int);
    proof {
        assert(s.len() == v@.len() - from);
    }
    let n = v.len();
    match find_char_from(v, from, sep) {
        None => {
            proof {
                lemma_spec_find(s, sep);
                lemma_spec_split_whole(s, sep);
                assert(v@.subrange(from as int, v@.len() as int) =~= s);
            }
            let mut r: Vec<(usize, usize)> = Vec::new();
            r.push((from, n));
            r
        },
        Some(k) => {
            proof {
                lemma_spec_find(s, sep);
            }
            let mut r = split_ranges(v, k + 1, sep);
            proof {
                let a = v@.subrange(from as int, k as int);
                let rest = v@.skip(k + 1);
                assert forall|i: int| 0 <= i < a.len() implies a[i] != sep by {
                    assert(a[i] == s[i]);
                }
                assert(s =~= a + seq![sep] + rest);
                lemma_spec_split_peel(a, sep, rest);
            }
            r.insert(0, (from, k));
            r
        },
    }
}

/// Read a signed decimal run beginning at `start`.
pub fn scan_i64(v: &[char], start: usize) -> (r: Option<(i64, usize)>)
    requires
        start <= v@.len(),
    ensures
        match r {
            Some(p) => start < p.1 <= v@.len() && spec_scan_i64(v@.skip(start as int)) == Some(
                (p.0, p.1 - start as int),
            ),
            None => spec_scan_i64(v@.skip(start as int)) is None,
        },
{
    let ghost s = v@.skip(start as int);
    if start < v.len() && v[start] == '-' {
        proof {
            assert(s[0] == v@[start as int]);
            assert(s.skip(1) =~= v@.skip(start + 1));
        }
        match scan_u64(v, start + 1) {
            Some((n, j)) => {
                if n > 0x8000000000000000u64 {
                    None
                } else {
                    let val: i64 = if n == 0x8000000000000000u64 {
                        i64::MIN
                    } else {
                        -(n as i64)
                    };
                    Some((val, j))
                }
            },
            None => None,
        }
    } else {
        proof {
            if s.len() > 0 {
                assert(s[0] == v@[start as int]);
            }
        }
        match scan_u64(v, start) {
            Some((n, j)) => {
                if n > 0x7fffffffffffffffu64 {
                    None
                } else {
                    Some((n as i64, j))
                }
            },
            None => None,
        }
    }
}

} // verus!
