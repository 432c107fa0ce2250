//! Scanning of plain text: trimming, splitting, and recognising numbers.
use vstd::prelude::*;

verus! {

/// Whether `c` is white space in the Unicode sense (the `White_Space`
/// property), as `char::is_whitespace` decides it.
pub open spec fn is_ws(c: char) -> bool {
    let u = c as u32;
    (0x09 <= u <= 0x0d) || u == 0x20 || u == 0x85 || u == 0xa0 || u == 0x1680
        || (0x2000 <= u <= 0x200a) || u == 0x2028 || u == 0x2029 || u == 0x202f
        || u == 0x205f || u == 0x3000
}

/// Whether `c` is dropped by a trim: white space, or the double quote when
/// `quote` is set.
pub open spec fn trims(c: char, quote: bool) -> bool {
    if quote {
        c == '"'
    } else {
        is_ws(c)
    }
}

/// `s` without the characters that [`trims`] drops at its start.
pub open spec fn trim_start(s: Seq<char>, quote: bool) -> Seq<char>
    decreases s.len(),
{
    if s.len() > 0 && trims(s[0], quote) {
        trim_start(s.drop_first(), quote)
    } else {
        s
    }
}

/// `s` without the characters that [`trims`] drops at its end.
pub open spec fn trim_end(s: Seq<char>, quote: bool) -> Seq<char>
    decreases s.len(),
{
    if s.len() > 0 && trims(s.last(), quote) {
        trim_end(s.drop_last(), quote)
    } else {
        s
    }
}

/// `s` trimmed at both ends: of white space, or of double quotes.
pub open spec fn trim(s: Seq<char>, quote: bool) -> Seq<char> {
    trim_end(trim_start(s, quote), quote)
}

/// The pieces of `s` between the occurrences of `sep`: one more piece than
/// there are separators, empty pieces included.
pub open spec fn split_on(s: Seq<char>, sep: char) -> Seq<Seq<char>>
    decreases s.len(),
{
    if s.len() == 0 {
        seq![Seq::empty()]
    } else {
        let pre = split_on(s.drop_last(), sep);
        if s.last() == sep {
            pre.push(Seq::empty())
        } else {
            pre.update(pre.len() - 1, pre.last().push(s.last()))
        }
    }
}

proof fn lemma_split_nonempty(s: Seq<char>, sep: char)
    ensures
        split_on(s, sep).len() >= 1,
    decreases s.len(),
{
    if s.len() > 0 {
        lemma_split_nonempty(s.drop_last(), sep);
    }
}

/// The bounds `a <= b` within `lo..hi` of `s` that trimming leaves.
pub fn trim_bounds(s: &Vec<char>, lo: usize, hi: usize, quote: bool) -> (r: (usize, usize))
    requires
        lo <= hi <= s.len(),
    ensures
        lo <= r.0 <= r.1 <= hi,
        s@.subrange(r.0 as int, r.1 as int) == trim(s@.subrange(lo as int, hi as int), quote),
{
    let mut a = lo;
    while a < hi && trims_char(s[a], quote)
        invariant
            lo <= a <= hi <= s.len(),
            trim_start(s@.subrange(lo as int, hi as int), quote) == trim_start(
                s@.subrange(a as int, hi as int),
                quote,
            ),
        decreases hi - a,
    {
        assert(s@.subrange(a as int, hi as int).drop_first() =~= s@.subrange(a + 1, hi as int));
        a = a + 1;
    }
    let mut b = hi;
    while b > a && trims_char(s[b - 1], quote)
        invariant
            lo <= a <= b <= hi <= s.len(),
            trim(s@.subrange(lo as int, hi as int), quote) == trim_end(
                s@.subrange(a as int, b as int),
                quote,
            ),
        decreases b - a,
    {
        assert(s@.subrange(a as int, b as int).drop_last() =~= s@.subrange(a as int, b - 1));
        b = b - 1;
    }
    (a, b)
}

/// Whether `c` is white space in the Unicode sense.
pub fn is_ws_char(c: char) -> (r: bool)
    ensures
        r == is_ws(c),
{
    let u = c as u32;
    (0x09 <= u && u <= 0x0d) || u == 0x20 || u == 0x85 || u == 0xa0 || u == 0x1680 || (0x2000
        <= u && u <= 0x200a) || u == 0x2028 || u == 0x2029 || u == 0x202f || u == 0x205f || u
        == 0x3000
}

/// Whether a trim drops `c`.
pub fn trims_char(c: char, quote: bool) -> (r: bool)
    ensures
        r == trims(c, quote),
{
    if quote {
        c == '"'
    } else {
        is_ws_char(c)
    }
}

/// The bounds of the pieces of `s[lo..hi]` between occurrences of `sep`.
pub fn split_bounds(s: &Vec<char>, lo: usize, hi: usize, sep: char) -> (r: Vec<(usize, usize)>)
    requires
        lo <= hi <= s.len(),
    ensures
        r@.len() == split_on(s@.subrange(lo as int, hi as int), sep).len(),
        forall|k: int|
            0 <= k < r@.len() ==> {
                &&& lo <= (#[trigger] r@[k]).0 <= r@[k].1 <= hi
                &&& s@.subrange(r@[k].0 as int, r@[k].1 as int) == split_on(
                    s@.subrange(lo as int, hi as int),
                    sep,
                )[k]
            },
{
    let mut done: Vec<(usize, usize)> = Vec::new();
    let mut start = lo;
    let mut i = lo;
    assert(s@.subrange(lo as int, lo as int) =~= Seq::<char>::empty());
    while i < hi
        invariant
            lo <= start <= i <= hi <= s.len(),
            split_on(s@.subrange(lo as int, i as int), sep).len() == done@.len() + 1,
            forall|k: int|
                0 <= k < done@.len() ==> {
                    &&& lo <= (#[trigger] done@[k]).0 <= done@[k].1 <= hi
                    &&& s@.subrange(done@[k].0 as int, done@[k].1 as int) == split_on(
                        s@.subrange(lo as int, i as int),
                        sep,
                    )[k]
                },
            s@.subrange(start as int, i as int) == split_on(
                s@.subrange(lo as int, i as int),
                sep,
            ).last(),
        decreases hi - i,
    {
        let ghost pre = split_on(s@.subrange(lo as int, i as int), sep);
        assert(s@.subrange(lo as int, i + 1).drop_last() =~= s@.subrange(lo as int, i as int));
        assert(s@.subrange(lo as int, i + 1).last() == s@[i as int]);
        if s[i] == sep {
            done.push((start, i));
            start = i + 1;
            assert(s@.subrange(start as int, i + 1) =~= Seq::<char>::empty());
        } else {
            assert(s@.subrange(start as int, i + 1) =~= s@.subrange(start as int, i as int).push(
                s@[i as int],
            ));
        }
        i = i + 1;
    }
    done.push((start, hi));
    proof {
        lemma_split_nonempty(s@.subrange(lo as int, hi as int), sep);
    }
    done
}

} // verus!

verus! {

/// Whether `c` is an ASCII decimal digit.
pub open spec fn is_digit(c: char) -> bool {
    '0' <= c <= '9'
}

/// Whether every character of `s` is a decimal digit.
pub open spec fn all_digits(s: Seq<char>) -> bool {
    forall|i: int| 0 <= i < s.len() ==> is_digit(#[trigger] s[i])
}

/// The number that the decimal digits `s` write.
pub open spec fn digits_value(s: Seq<char>) -> int
    decreases s.len(),
{
    if s.len() == 0 {
        0
    } else {
        digits_value(s.drop_last()) * 10 + (s.last() as int - '0' as int)
    }
}

/// `s` without one leading `+`.
pub open spec fn plus_dropped(s: Seq<char>) -> Seq<char> {
    if s.len() > 0 && s[0] == '+' {
        s.drop_first()
    } else {
        s
    }
}

/// `s` without one leading `+` or `-`.
pub open spec fn sign_dropped(s: Seq<char>) -> Seq<char> {
    if s.len() > 0 && (s[0] == '+' || s[0] == '-') {
        s.drop_first()
    } else {
        s
    }
}

/// Whether `s` reads as a `u32` the way `u32::from_str` reads it: an
/// optional `+`, then at least one digit, and a value that fits.
pub open spec fn parses_u32(s: Seq<char>) -> bool {
    let d = plus_dropped(s);
    d.len() > 0 && all_digits(d) && digits_value(d) <= u32::MAX
}

/// The value of `s` when [`parses_u32`] holds.
pub open spec fn u32_value(s: Seq<char>) -> int {
    digits_value(plus_dropped(s))
}

/// How many digits run in `s` from position `i`.
pub open spec fn digit_run(s: Seq<char>, i: int) -> int
    decreases s.len() - i,
{
    if 0 <= i < s.len() && is_digit(s[i]) {
        1 + digit_run(s, i + 1)
    } else {
        0
    }
}

/// Whether `r` is the part of a float literal after `e`: an optional sign
/// and at least one digit.
pub open spec fn exponent_ok(r: Seq<char>) -> bool {
    let d = sign_dropped(r);
    d.len() > 0 && all_digits(d)
}

/// Whether `t` is an unsigned decimal float: digits, an optional `.` with
/// digits after it, at least one digit in all, then an optional exponent.
pub open spec fn decimal_literal(t: Seq<char>) -> bool {
    let n1 = digit_run(t, 0);
    let dot = n1 < t.len() && t[n1] == '.';
    let n2 = if dot { digit_run(t, n1 + 1) } else { 0 };
    let pos = if dot { n1 + 1 + n2 } else { n1 };
    n1 + n2 > 0 && (pos == t.len() || ((t[pos] == 'e' || t[pos] == 'E') && exponent_ok(
        t.skip(pos + 1),
    )))
}

/// Whether `a` is the lower-case letter `b` or its upper-case form.
pub open spec fn same_letter(a: char, b: char) -> bool {
    a == b || ('A' <= a <= 'Z' && a as u32 + 32 == b as u32)
}

/// Whether `t` is the lower-case `word`, ignoring ASCII case.
pub open spec fn is_word(t: Seq<char>, word: Seq<char>) -> bool {
    t.len() == word.len() && forall|i: int| 0 <= i < t.len() ==> same_letter(#[trigger] t[i], word[i])
}

/// Whether `s` reads as an `f64` the way `f64::from_str` reads it: an
/// optional sign, then a decimal float, or `inf`, `infinity` or `nan` in
/// any case.
pub open spec fn parses_f64(s: Seq<char>) -> bool {
    let t = sign_dropped(s);
    t.len() > 0 && (decimal_literal(t) || is_word(t, seq!['i', 'n', 'f']) || is_word(
        t,
        seq!['i', 'n', 'f', 'i', 'n', 'i', 't', 'y'],
    ) || is_word(t, seq!['n', 'a', 'n']))
}

proof fn lemma_digits_value_grows(s: Seq<char>, k: int)
    requires
        0 <= k <= s.len(),
        all_digits(s),
    ensures
        0 <= digits_value(s.take(k)) <= digits_value(s),
    decreases s.len() - k,
{
    if k < s.len() {
        lemma_digits_value_grows(s, k + 1);
        assert(s.take(k + 1).drop_last() =~= s.take(k));
        assert(is_digit(s[k]));
    } else {
        assert(s.take(k) =~= s);
        lemma_digits_value_nonneg(s);
    }
}

proof fn lemma_digits_value_nonneg(s: Seq<char>)
    requires
        all_digits(s),
    ensures
        digits_value(s) >= 0,
    decreases s.len(),
{
    if s.len() > 0 {
        assert(all_digits(s.drop_last())) by {
            assert forall|i: int| 0 <= i < s.len() - 1 implies is_digit(#[trigger] s.drop_last()[i]) by {
                assert(s.drop_last()[i] == s[i]);
            }
        }
        lemma_digits_value_nonneg(s.drop_last());
        assert(is_digit(s[s.len() - 1]));
    }
}

/// The characters `s[a..b]`.
pub fn sub_vec(s: &Vec<char>, a: usize, b: usize) -> (r: Vec<char>)
    requires
        a <= b <= s.len(),
    ensures
        r@ == s@.subrange(a as int, b as int),
{
    let mut r: Vec<char> = Vec::new();
    let mut i = a;
    while i < b
        invariant
            a <= i <= b <= s.len(),
            r@ == s@.subrange(a as int, i as int),
        decreases b - i,
    {
        r.push(s[i]);
        assert(r@ =~= s@.subrange(a as int, i + 1));
        i = i + 1;
    }
    r
}

/// Reads `t` as a `u32`, as `u32::from_str` does.
pub fn parse_u32(t: &Vec<char>) -> (r: Option<u32>)
    ensures
        r is Some <==> parses_u32(t@),
        r is Some ==> r->0 == u32_value(t@),
{
    let start: usize = if t.len() > 0 && t[0] == '+' { 1 } else { 0 };
    let ghost d = plus_dropped(t@);
    assert(d =~= t@.skip(start as int));
    if start == t.len() {
        return None;
    }
    let mut acc: u64 = 0;
    let mut i = start;
    assert(d.take(0) =~= Seq::<char>::empty());
    while i < t.len()
        invariant
            start <= i <= t.len(),
            d == t@.skip(start as int),
            d == plus_dropped(t@),
            all_digits(d.take(i - start)),
            acc == digits_value(d.take(i - start)),
            acc <= u32::MAX,
        decreases t.len() - i,
    {
        let c = t[i];
        if !('0' <= c && c <= '9') {
            assert(d[i - start] == c);
            assert(!is_digit(d[i - start]));
            return None;
        }
        assert(d.take(i - start + 1).drop_last() =~= d.take(i - start));
        assert(d.take(i - start + 1).last() == c);
        assert(all_digits(d.take(i - start + 1))) by {
            assert forall|j: int| 0 <= j < i - start + 1 implies is_digit(#[trigger] d.take(i - start + 1)[j]) by {
                if j < i - start {
                    assert(d.take(i - start + 1)[j] == d.take(i - start)[j]);
                }
            }
        }
        acc = acc * 10 + (c as u64 - '0' as u64);
        assert(acc == digits_value(d.take(i - start + 1)));
        if acc > 0xffff_ffff {
            proof {
                if all_digits(d) {
                    lemma_digits_value_grows(d, i - start + 1);
                }
            }
            return None;
        }
        i = i + 1;
    }
    assert(d.take(i - start) =~= d);
    Some(acc as u32)
}

/// How many digits run in `t` from position `i`.
fn digit_run_len(t: &Vec<char>, i: usize) -> (r: usize)
    requires
        i <= t.len(),
    ensures
        r == digit_run(t@, i as int),
        i + r <= t.len(),
{
    let mut k = i;
    while k < t.len() && '0' <= t[k] && t[k] <= '9'
        invariant
            i <= k <= t.len(),
            digit_run(t@, i as int) == (k - i) + digit_run(t@, k as int),
        decreases t.len() - k,
    {
        k = k + 1;
    }
    k - i
}

/// Whether `t[from..]` is all digits, with at least one.
fn digits_to_end(t: &Vec<char>, from: usize) -> (r: bool)
    requires
        from <= t.len(),
    ensures
        r == (t@.skip(from as int).len() > 0 && all_digits(t@.skip(from as int))),
{
    let n = digit_run_len(t, from);
    proof { lemma_run_digits(t@, from as int); }
    proof { lemma_run_stops(t@, from as int); }
    if from + n == t.len() && n > 0 {
        assert forall|j: int| 0 <= j < t@.skip(from as int).len() implies is_digit(
            #[trigger] t@.skip(from as int)[j],
        ) by {
            assert(t@.skip(from as int)[j] == t@[from + j]);
        }
        true
    } else {
        proof {
            if from + n < t.len() {
                assert(t@.skip(from as int)[n as int] == t@[from + n]);
            }
        }
        false
    }
}

proof fn lemma_run_digits(s: Seq<char>, i: int)
    requires
        0 <= i <= s.len(),
    ensures
        i + digit_run(s, i) <= s.len(),
        forall|j: int| i <= j < i + digit_run(s, i) ==> is_digit(#[trigger] s[j]),
    decreases s.len() - i,
{
    if i < s.len() && is_digit(s[i]) {
        lemma_run_digits(s, i + 1);
    }
}

proof fn lemma_run_stops(s: Seq<char>, i: int)
    requires
        0 <= i <= s.len(),
    ensures
        i + digit_run(s, i) == s.len() || !is_digit(s[i + digit_run(s, i)]),
    decreases s.len() - i,
{
    if i < s.len() && is_digit(s[i]) {
        lemma_run_stops(s, i + 1);
    }
}

/// Whether `t` is `word` (lower case), ignoring ASCII case.
fn is_word_exec(t: &Vec<char>, from: usize, word: &Vec<char>) -> (r: bool)
    requires
        from <= t.len(),
        forall|i: int| 0 <= i < word.len() ==> 'a' <= #[trigger] word@[i] <= 'z',
    ensures
        r == is_word(t@.skip(from as int), word@),
{
    let ghost u = t@.skip(from as int);
    if t.len() - from != word.len() {
        return false;
    }
    let mut i: usize = 0;
    while i < word.len()
        invariant
            u == t@.skip(from as int),
            from <= t.len(),
            t.len() - from == word.len(),
            u.len() == word.len(),
            i <= word.len(),
            forall|j: int| 0 <= j < i ==> same_letter(#[trigger] u[j], word@[j]),
        decreases word.len() - i,
    {
        let a = t[from + i];
        let b = word[i];
        assert(u[i as int] == a);
        if !(a == b || ('A' <= a && a <= 'Z' && a as u32 + 32 == b as u32)) {
            return false;
        }
        i = i + 1;
    }
    true
}

/// Whether `t` reads as an `f64`, as `f64::from_str` decides it.
pub fn parses_f64_exec(t: &Vec<char>) -> (r: bool)
    ensures
        r == parses_f64(t@),
{
    let from: usize = if t.len() > 0 && (t[0] == '+' || t[0] == '-') { 1 } else { 0 };
    let ghost u = sign_dropped(t@);
    assert(u =~= t@.skip(from as int));
    if from == t.len() {
        return false;
    }
    let n1 = digit_run_len(t, from);
    let ghost ru = digit_run(u, 0);
    proof { lemma_run_shift(t@, from as int, 0); }
    let dot = from + n1 < t.len() && t[from + n1] == '.';
    let mut n2: usize = 0;
    if dot {
        n2 = digit_run_len(t, from + n1 + 1);
        proof { lemma_run_shift(t@, from as int, n1 + 1); }
    }
    let pos = if dot { from + n1 + 1 + n2 } else { from + n1 };
    let mut dec = false;
    if n1 + n2 > 0 {
        if pos == t.len() {
            dec = true;
        } else if t[pos] == 'e' || t[pos] == 'E' {
            let efrom: usize = if pos + 1 < t.len() && (t[pos + 1] == '+' || t[pos + 1] == '-') {
                pos + 2
            } else {
                pos + 1
            };
            assert(sign_dropped(u.skip(pos - from + 1)) =~= t@.skip(efrom as int));
            dec = digits_to_end(t, efrom);
        }
    }
    assert(dec == decimal_literal(u));
    let inf = vec!['i', 'n', 'f'];
    let infinity = vec!['i', 'n', 'f', 'i', 'n', 'i', 't', 'y'];
    let nan = vec!['n', 'a', 'n'];
    dec || is_word_exec(t, from, &inf) || is_word_exec(t, from, &infinity) || is_word_exec(
        t,
        from,
        &nan,
    )
}

proof fn lemma_run_shift(s: Seq<char>, d: int, i: int)
    requires
        0 <= d <= s.len(),
        0 <= i,
    ensures
        digit_run(s.skip(d), i) == digit_run(s, d + i),
    decreases s.len() - d - i,
{
    if d + i < s.len() && is_digit(s[d + i]) {
        lemma_run_shift(s, d, i + 1);
    }
}

} // verus!
