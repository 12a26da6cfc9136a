//! Text as a sequence of characters: splitting, trimming, numbers in decimal.

use vstd::arithmetic::div_mod::lemma_div_denominator;
use vstd::arithmetic::power::{lemma_pow_positive, pow};
use vstd::prelude::*;

verus! {

/// `String::push` appends one character to the end of the string.
pub assume_specification[ String::push ](s: &mut String, c: char)
    ensures
        final(s)@ == old(s)@.push(c),
;

/// The characters with Unicode's `White_Space` property.
pub open spec fn white_space(c: char) -> bool {
    let n = c as int;
    ||| 0x9 <= n <= 0xd
    ||| n == 0x20
    ||| n == 0x85
    ||| n == 0xa0
    ||| n == 0x1680
    ||| 0x2000 <= n <= 0x200a
    ||| n == 0x2028
    ||| n == 0x2029
    ||| n == 0x202f
    ||| n == 0x205f
    ||| n == 0x3000
}

/// How many characters at the front of `s` satisfy `p`.
pub open spec fn leading(s: Seq<char>, p: spec_fn(char) -> bool) -> nat
    decreases s.len(),
{
    if s.len() > 0 && p(s[0]) {
        1 + leading(s.skip(1), p)
    } else {
        0
    }
}

/// No more characters lead than there are.
pub proof fn lemma_leading_fits(s: Seq<char>, p: spec_fn(char) -> bool)
    ensures
        leading(s, p) <= s.len(),
    decreases s.len(),
{
    if s.len() > 0 && p(s[0]) {
        lemma_leading_fits(s.skip(1), p);
    }
}

/// The predicate that holds of white space.
pub open spec fn blank() -> spec_fn(char) -> bool {
    |c: char| white_space(c)
}

/// The predicate that holds of every character but white space.
pub open spec fn inked() -> spec_fn(char) -> bool {
    |c: char| !white_space(c)
}

/// The predicate that holds of the slash.
pub open spec fn slash() -> spec_fn(char) -> bool {
    |c: char| c == '/'
}

/// `s` without the white space at its front.
pub open spec fn trim_start(s: Seq<char>) -> Seq<char> {
    s.skip(leading(s, blank()) as int)
}

/// `s` without the slashes at its front.
pub open spec fn trim_slashes(s: Seq<char>) -> Seq<char> {
    s.skip(leading(s, slash()) as int)
}

/// The maximal runs of characters in `s` that are no white space, in order.
pub open spec fn words(s: Seq<char>) -> Seq<Seq<char>>
    decreases s.len(),
{
    let t = trim_start(s);
    let n = leading(t, inked());
    if n == 0 {
        seq![]
    } else {
        proof {
            lemma_leading_fits(s, blank());
            lemma_leading_fits(t, inked());
        }
        seq![t.take(n as int)] + words(t.skip(n as int))
    }
}

/// The word at position `i` of `s`, empty where `s` has fewer words.
pub open spec fn word(s: Seq<char>, i: int) -> Seq<char> {
    if 0 <= i < words(s).len() {
        words(s)[i]
    } else {
        seq![]
    }
}

/// The lower case form of an ASCII letter; any other character as it is.
pub open spec fn lower_char(c: char) -> char {
    if 'A' <= c <= 'Z' {
        (c as u32 + 32) as char
    } else {
        c
    }
}

/// `s` with its ASCII letters in lower case.
pub open spec fn lower(s: Seq<char>) -> Seq<char> {
    s.map_values(|c: char| lower_char(c))
}

/// The decimal digit that stands for `d`.
pub open spec fn digit(d: nat) -> char {
    ('0' as nat + d) as char
}

/// `n` in decimal, without leading zeros.
pub open spec fn dec(n: nat) -> Seq<char>
    decreases n,
{
    if n < 10 {
        seq![digit(n)]
    } else {
        dec(n / 10).push(digit(n % 10))
    }
}

/// `i` in decimal, with a minus sign where it is negative.
pub open spec fn int_text(i: int) -> Seq<char> {
    if i < 0 {
        seq!['-'] + dec((-i) as nat)
    } else {
        dec(i as nat)
    }
}

/// Whether `c` is a decimal digit.
pub open spec fn is_digit(c: char) -> bool {
    '0' <= c <= '9'
}

/// Whether `s` consists of decimal digits.
pub open spec fn all_digits(s: Seq<char>) -> bool {
    forall|i: int| 0 <= i < s.len() ==> is_digit(#[trigger] s[i])
}

/// The number that the digits `s` write in decimal.
pub open spec fn dec_value(s: Seq<char>) -> nat
    decreases s.len(),
{
    if s.len() == 0 {
        0
    } else {
        10 * dec_value(s.drop_last()) + (s.last() as nat - '0' as nat) as nat
    }
}

/// `s` without one plus sign at its front.
pub open spec fn unsigned_part(s: Seq<char>) -> Seq<char> {
    if s.len() > 0 && s[0] == '+' {
        s.skip(1)
    } else {
        s
    }
}

/// The number that `s` writes: an optional plus sign, then digits and nothing else.
pub open spec fn parse_nat(s: Seq<char>) -> Option<nat> {
    let d = unsigned_part(s);
    if d.len() > 0 && all_digits(d) {
        Some(dec_value(d))
    } else {
        None
    }
}

/// What follows the last slash of `s`; all of `s` where it has none.
pub open spec fn after_last_slash(s: Seq<char>) -> Seq<char>
    decreases s.len(),
{
    if s.len() == 0 || s.last() == '/' {
        seq![]
    } else {
        after_last_slash(s.drop_last()).push(s.last())
    }
}

/// The texts that a list of strings holds.
pub open spec fn views(v: Seq<String>) -> Seq<Seq<char>> {
    v.map_values(|s: String| s@)
}

/// `lines`, one under the other.
pub open spec fn join_lines(lines: Seq<Seq<char>>) -> Seq<char>
    decreases lines.len(),
{
    if lines.len() == 0 {
        seq![]
    } else if lines.len() == 1 {
        lines[0]
    } else {
        join_lines(lines.drop_last()) + seq!['\n'] + lines.last()
    }
}

/// Whether two texts are the same.
pub fn same_text(a: &str, b: &str) -> (r: bool)
    ensures
        r == (a@ == b@),
{
    a.to_owned() == b.to_owned()
}

/// The characters of `s`.
pub fn chars_of(s: &str) -> (v: Vec<char>)
    ensures
        v@ == s@,
{
    let mut v: Vec<char> = Vec::new();
    for c in it: s.chars()
        invariant
            it.seq() == s@,
            v@ == s@.take(it.index() as int),
    {
        v.push(c);
    }
    v
}

/// The characters of `v` from position `from` on, up to but without position `to`.
pub fn text_of(v: &Vec<char>, from: usize, to: usize) -> (r: String)
    requires
        from <= to <= v@.len(),
    ensures
        r@ == v@.subrange(from as int, to as int),
{
    let mut r: String = String::new();
    let mut i: usize = from;
    while i < to
        invariant
            from <= i <= to <= v@.len(),
            r@ == v@.subrange(from as int, i as int),
        decreases to - i,
    {
        r.push(v[i]);
        i = i + 1;
    }
    r
}

/// Whether `c` has Unicode's `White_Space` property.
pub fn is_white_space(c: char) -> (r: bool)
    ensures
        r == white_space(c),
{
    let n: u32 = c as u32;
    (0x9 <= n && n <= 0xd) || n == 0x20 || n == 0x85 || n == 0xa0 || n == 0x1680 || (0x2000 <= n
        && n <= 0x200a) || n == 0x2028 || n == 0x2029 || n == 0x202f || n == 0x205f || n == 0x3000
}

/// The first position from `from` on that holds no white space.
fn skip_blank(v: &Vec<char>, from: usize) -> (to: usize)
    requires
        from <= v@.len(),
    ensures
        from <= to <= v@.len(),
        to == from + leading(v@.skip(from as int), blank()),
{
    let mut i: usize = from;
    while i < v.len() && is_white_space(v[i])
        invariant
            from <= i <= v@.len(),
            leading(v@.skip(from as int), blank()) == (i - from) + leading(
                v@.skip(i as int),
                blank(),
            ),
        decreases v@.len() - i,
    {
        proof {
            assert(v@.skip(i as int).skip(1) =~= v@.skip(i + 1));
        }
        i = i + 1;
    }
    i
}

/// The first position from `from` on that holds white space.
fn skip_inked(v: &Vec<char>, from: usize) -> (to: usize)
    requires
        from <= v@.len(),
    ensures
        from <= to <= v@.len(),
        to == from + leading(v@.skip(from as int), inked()),
{
    let mut i: usize = from;
    while i < v.len() && !is_white_space(v[i])
        invariant
            from <= i <= v@.len(),
            leading(v@.skip(from as int), inked()) == (i - from) + leading(
                v@.skip(i as int),
                inked(),
            ),
        decreases v@.len() - i,
    {
        proof {
            assert(v@.skip(i as int).skip(1) =~= v@.skip(i + 1));
        }
        i = i + 1;
    }
    i
}

/// The first position from `from` on that holds no slash.
fn skip_slashes(v: &Vec<char>, from: usize) -> (to: usize)
    requires
        from <= v@.len(),
    ensures
        from <= to <= v@.len(),
        to == from + leading(v@.skip(from as int), slash()),
{
    let mut i: usize = from;
    while i < v.len() && v[i] == '/'
        invariant
            from <= i <= v@.len(),
            leading(v@.skip(from as int), slash()) == (i - from) + leading(
                v@.skip(i as int),
                slash(),
            ),
        decreases v@.len() - i,
    {
        proof {
            assert(v@.skip(i as int).skip(1) =~= v@.skip(i + 1));
        }
        i = i + 1;
    }
    i
}

/// The words of `s`: its maximal runs of characters that are no white space.
pub fn split_words(s: &str) -> (r: Vec<String>)
    ensures
        views(r@) == words(s@),
{
    let v: Vec<char> = chars_of(s);
    let mut r: Vec<String> = Vec::new();
    let mut at: usize = 0;
    proof {
        assert(v@.skip(0) =~= s@);
        assert(views(r@) + words(s@) =~= words(s@));
    }
    loop
        invariant
            v@ == s@,
            at <= v@.len(),
            views(r@) + words(v@.skip(at as int)) == words(s@),
        ensures
            views(r@) == words(s@),
        decreases v@.len() - at,
    {
        let start: usize = skip_blank(&v, at);
        let end: usize = skip_inked(&v, start);
        proof {
            assert(trim_start(v@.skip(at as int)) =~= v@.skip(start as int));
        }
        if end == start {
            proof {
                assert(views(r@) + Seq::<Seq<char>>::empty() =~= views(r@));
            }
            break;
        }
        let ghost before = r@;
        let w: String = text_of(&v, start, end);
        r.push(w);
        proof {
            let t = v@.skip(start as int);
            assert(t.take(end - start) =~= w@);
            assert(t.skip(end - start) =~= v@.skip(end as int));
            assert(views(r@) =~= views(before) + seq![w@]);
            assert(views(r@) + words(v@.skip(end as int)) =~= views(before) + (seq![w@] + words(
                v@.skip(end as int),
            )));
        }
        at = end;
    }
    r
}

/// `s` with its ASCII letters in lower case.
pub fn to_lower(s: &str) -> (r: String)
    ensures
        r@ == lower(s@),
{
    let v: Vec<char> = chars_of(s);
    let mut r: String = String::new();
    let mut i: usize = 0;
    while i < v.len()
        invariant
            v@ == s@,
            i <= v@.len(),
            r@ == lower(s@.take(i as int)),
        decreases v@.len() - i,
    {
        let c: char = v[i];
        if 'A' <= c && c <= 'Z' {
            r.push(((c as u8) + 32) as char);
        } else {
            r.push(c);
        }
        i = i + 1;
    }
    proof {
        assert(s@.take(i as int) =~= s@);
    }
    r
}

/// `s` without the slashes at its front.
pub fn without_slashes(s: &str) -> (r: String)
    ensures
        r@ == trim_slashes(s@),
{
    let v: Vec<char> = chars_of(s);
    let start: usize = skip_slashes(&v, 0);
    proof {
        assert(v@.skip(0) =~= s@);
        assert(v@.skip(start as int) =~= v@.subrange(start as int, v@.len() as int));
    }
    text_of(&v, start, v.len())
}

/// Whether `s` begins with `prefix`.
pub fn begins_with(s: &str, prefix: &str) -> (r: bool)
    ensures
        r == prefix@.is_prefix_of(s@),
{
    let v: Vec<char> = chars_of(s);
    let p: Vec<char> = chars_of(prefix);
    if p.len() > v.len() {
        return false;
    }
    let mut i: usize = 0;
    while i < p.len()
        invariant
            v@ == s@,
            p@ == prefix@,
            i <= p@.len() <= v@.len(),
            p@.take(i as int) == v@.take(i as int),
        decreases p@.len() - i,
    {
        if v[i] != p[i] {
            proof {
                assert(p@[i as int] != v@.subrange(0, p@.len() as int)[i as int]);
            }
            return false;
        }
        proof {
            assert(p@.take(i + 1) =~= p@.take(i as int).push(p@[i as int]));
            assert(v@.take(i + 1) =~= v@.take(i as int).push(v@[i as int]));
        }
        i = i + 1;
    }
    proof {
        assert(p@.take(i as int) =~= p@);
    }
    true
}

/// Appends `n` in decimal.
fn push_dec(s: &mut String, n: u64)
    ensures
        final(s)@ == old(s)@ + dec(n as nat),
    decreases n,
{
    if n >= 10 {
        push_dec(s, n / 10);
    }
    let d: u8 = (n % 10) as u8;
    s.push((0x30u8 + d) as char);
}

/// `n` in decimal.
pub fn u64_text(n: u64) -> (r: String)
    ensures
        r@ == dec(n as nat),
{
    let mut r: String = String::new();
    push_dec(&mut r, n);
    r
}

/// `i` in decimal, with a minus sign where it is negative.
pub fn i64_text(i: i64) -> (r: String)
    ensures
        r@ == int_text(i as int),
{
    let mut r: String = String::new();
    if i < 0 {
        r.push('-');
        // The magnitude of the least value is one more than the largest value.
        let m: u64 = ((-(i + 1)) as u64) + 1;
        push_dec(&mut r, m);
    } else {
        push_dec(&mut r, i as u64);
    }
    r
}

/// The number that `s` writes, where it fits: what `parse_nat` gives, up to the largest `u64`.
pub open spec fn parse_fitting(s: Seq<char>) -> Option<u64> {
    match parse_nat(s) {
        Some(n) => if n <= u64::MAX {
            Some(n as u64)
        } else {
            None
        },
        None => None,
    }
}

proof fn lemma_dec_value_grows(s: Seq<char>, k: int)
    requires
        0 <= k <= s.len(),
    ensures
        dec_value(s.take(k)) <= dec_value(s),
    decreases s.len(),
{
    if k == s.len() {
        assert(s.take(k) =~= s);
    } else {
        lemma_dec_value_grows(s.drop_last(), k);
        assert(s.drop_last().take(k) =~= s.take(k));
    }
}

/// The number that `s` writes in decimal, after an optional plus sign. Nothing where `s` holds
/// anything else, or where the number is too large.
pub fn parse_u64(s: &str) -> (r: Option<u64>)
    ensures
        r == parse_fitting(s@),
{
    let v: Vec<char> = chars_of(s);
    let from: usize = if v.len() > 0 && v[0] == '+' {
        1
    } else {
        0
    };
    let ghost d = unsigned_part(s@);
    proof {
        assert(d =~= v@.skip(from as int));
    }
    if from == v.len() {
        return None;
    }
    let mut n: u64 = 0;
    let mut i: usize = from;
    while i < v.len()
        invariant
            v@ == s@,
            d == unsigned_part(s@),
            from <= i <= v@.len(),
            d == v@.skip(from as int),
            all_digits(d.take(i - from)),
            n == dec_value(d.take(i - from)),
        decreases v@.len() - i,
    {
        let c: char = v[i];
        proof {
            assert(d[i - from] == c);
            assert(d.take(i + 1 - from).drop_last() =~= d.take(i - from));
            assert(d.take(i + 1 - from).last() == c);
        }
        if !('0' <= c && c <= '9') {
            return None;
        }
        let x: u64 = (c as u32 - 48) as u64;
        if n > (u64::MAX - x) / 10 {
            proof {
                lemma_dec_value_grows(d, i + 1 - from);
            }
            return None;
        }
        n = n * 10 + x;
        i = i + 1;
    }
    proof {
        assert(d.take(i - from) =~= d);
    }
    Some(n)
}

/// What follows the last slash of `s`; all of `s` where it has none.
pub fn last_segment(s: &str) -> (r: String)
    ensures
        r@ == after_last_slash(s@),
{
    let v: Vec<char> = chars_of(s);
    let mut from: usize = 0;
    let mut i: usize = 0;
    while i < v.len()
        invariant
            v@ == s@,
            from <= i <= v@.len(),
            after_last_slash(v@.take(i as int)) == v@.subrange(from as int, i as int),
        decreases v@.len() - i,
    {
        proof {
            assert(v@.take(i + 1).drop_last() =~= v@.take(i as int));
        }
        if v[i] == '/' {
            from = i + 1;
        }
        i = i + 1;
        proof {
            if from < i {
                assert(v@.subrange(from as int, i - 1).push(v@[i - 1]) =~= v@.subrange(
                    from as int,
                    i as int,
                ));
            }
        }
    }
    proof {
        assert(v@.take(i as int) =~= v@);
    }
    text_of(&v, from, v.len())
}

/// `lines`, one under the other.
pub fn join(lines: &Vec<String>) -> (r: String)
    ensures
        r@ == join_lines(views(lines@)),
{
    let mut r: String = String::new();
    let mut i: usize = 0;
    while i < lines.len()
        invariant
            i <= lines@.len(),
            r@ == join_lines(views(lines@).take(i as int)),
        decreases lines@.len() - i,
    {
        proof {
            let t = views(lines@).take(i + 1);
            assert(t.drop_last() =~= views(lines@).take(i as int));
            assert(t.last() == lines@[i as int]@);
            if i > 0 {
                assert(join_lines(t) == r@ + seq!['\n'] + lines@[i as int]@);
                assert(r@.push('\n') =~= r@ + seq!['\n']);
            } else {
                assert(t[0] == lines@[0]@);
                assert(r@ =~= seq![]);
                assert(r@ + lines@[0]@ =~= lines@[0]@);
            }
        }
        if i > 0 {
            r.push('\n');
        }
        r.append(lines[i].as_str());
        i = i + 1;
    }
    proof {
        assert(views(lines@).take(i as int) =~= views(lines@));
    }
    r
}

/// Reading back a number that was written in decimal gives that number.
pub proof fn parse_reads_back_decimal(n: nat)
    ensures
        parse_nat(dec(n)) == Some(n),
{
    lemma_dec(n);
    let s = dec(n);
    assert(is_digit(s[0]));
    assert(unsigned_part(s) == s);
}

proof fn lemma_dec(n: nat)
    ensures
        dec(n).len() > 0,
        all_digits(dec(n)),
        dec_value(dec(n)) == n,
    decreases n,
{
    if n < 10 {
        assert(dec(n).drop_last() =~= seq![]);
        assert(dec_value(dec(n).drop_last()) == 0);
    } else {
        lemma_dec(n / 10);
        assert(dec(n).drop_last() =~= dec(n / 10));
    }
}

/// Different numbers are written differently.
pub proof fn decimal_is_unambiguous(a: int, b: int)
    requires
        int_text(a) == int_text(b),
    ensures
        a == b,
{
    let x = if a < 0 { (-a) as nat } else { a as nat };
    let y = if b < 0 { (-b) as nat } else { b as nat };
    lemma_dec(x);
    lemma_dec(y);
    assert(is_digit(dec(x)[0]));
    assert(is_digit(dec(y)[0]));
    if a < 0 {
        assert(int_text(a)[0] == '-');
        assert(b < 0);
        assert(int_text(a).skip(1) =~= dec(x));
        assert(int_text(b).skip(1) =~= dec(y));
    } else {
        assert(int_text(a)[0] != '-');
        assert(b >= 0);
    }
}

/// The last segment of a path holds no slash, the path ends in it, and before it comes a slash or
/// nothing at all.
pub proof fn last_segment_is_a_plain_ending(s: Seq<char>)
    ensures
        !after_last_slash(s).contains('/'),
        after_last_slash(s).is_suffix_of(s),
        after_last_slash(s) == s || s[s.len() - after_last_slash(s).len() - 1] == '/',
        !s.contains('/') ==> after_last_slash(s) == s,
    decreases s.len(),
{
    if s.len() > 0 {
        let h = s.drop_last();
        last_segment_is_a_plain_ending(h);
        assert(s =~= h.push(s.last()));
        if !s.contains('/') {
            assert forall|i: int| 0 <= i < h.len() implies h[i] != '/' by {
                assert(s[i] == h[i]);
            }
            assert(s.last() != '/');
        }
        if s.last() != '/' {
            let t = after_last_slash(h);
            let r = after_last_slash(s);
            assert(r == t.push(s.last()));
            assert forall|i: int| 0 <= i < r.len() implies r[i] != '/' by {
                if i < t.len() {
                    assert(r[i] == t[i]);
                    assert(t.contains(t[i]));
                }
            }
            assert(t =~= h.subrange(h.len() - t.len(), h.len() as int));
            assert(r =~= s.subrange(s.len() - r.len(), s.len() as int));
        } else {
            assert(s.contains('/')) by {
                assert(s[s.len() - 1] == '/');
            }
        }
    }
}

proof fn lemma_leading_holds(s: Seq<char>, p: spec_fn(char) -> bool)
    ensures
        forall|i: int| 0 <= i < leading(s, p) ==> p(#[trigger] s[i]),
    decreases s.len(),
{
    if s.len() > 0 && p(s[0]) {
        let t = s.skip(1);
        lemma_leading_holds(t, p);
        lemma_leading_fits(t, p);
        assert forall|i: int| 0 <= i < leading(s, p) implies p(#[trigger] s[i]) by {
            if i > 0 {
                assert(t[i - 1] == s[i]);
            }
        }
    }
}

/// Words are not empty and hold no white space.
pub proof fn words_are_solid(s: Seq<char>)
    ensures
        forall|k: int, i: int|
            0 <= k < words(s).len() && 0 <= i < words(s)[k].len() ==> !white_space(
                #[trigger] words(s)[k][i],
            ),
        forall|k: int| 0 <= k < words(s).len() ==> (#[trigger] words(s)[k]).len() > 0,
    decreases s.len(),
{
    let t = trim_start(s);
    let n = leading(t, inked());
    lemma_leading_fits(s, blank());
    lemma_leading_fits(t, inked());
    if n > 0 {
        lemma_leading_holds(t, inked());
        let rest = t.skip(n as int);
        words_are_solid(rest);
        assert forall|k: int, i: int|
            0 <= k < words(s).len() && 0 <= i < words(s)[k].len() implies !white_space(
            #[trigger] words(s)[k][i],
        ) by {
            if k == 0 {
                assert(words(s)[0] == t.take(n as int));
                assert(inked()(t[i]));
            } else {
                assert(words(s)[k] == words(rest)[k - 1]);
                assert(!white_space(words(rest)[k - 1][i]));
            }
        }
        assert forall|k: int| 0 <= k < words(s).len() implies (#[trigger] words(s)[k]).len() > 0 by {
            if k > 0 {
                assert(words(s)[k] == words(rest)[k - 1]);
            }
        }
    }
}

/// Each place of a number in decimal holds the digit of that power of ten, and there is no zero in
/// front.
pub proof fn digits_stand_in_their_places(n: nat, i: nat)
    ensures
        dec(n).len() > 0,
        i < dec(n).len() ==> dec(n)[dec(n).len() - 1 - i] as int == 0x30 + (n as int / pow(10, i))
            % 10,
        i >= dec(n).len() ==> n < pow(10, i),
        n > 0 ==> dec(n)[0] != '0',
    decreases n,
{
    reveal(pow);
    lemma_pow_positive(10, i);
    if n >= 10 {
        let h = n / 10;
        if i > 0 {
            let j = (i - 1) as nat;
            digits_stand_in_their_places(h, j);
            lemma_pow_positive(10, j);
            assert(pow(10, i) == 10 * pow(10, j));
            lemma_div_denominator(n as int, 10, pow(10, j));
            if j < dec(h).len() {
                assert(dec(n)[dec(n).len() - 1 - i] == dec(h)[dec(h).len() - 1 - j]);
            }
        } else {
            digits_stand_in_their_places(h, 0);
        }
        assert(dec(n)[0] == dec(h)[0]);
    } else if i > 0 {
        lemma_pow_positive(10, (i - 1) as nat);
        assert(pow(10, i) == 10 * pow(10, (i - 1) as nat));
    }
}

/// A negative number is a minus sign and its magnitude; any other number is its magnitude alone.
pub proof fn signs_stand_in_front(i: int)
    ensures
        i >= 0 ==> int_text(i) == dec(i as nat),
        i < 0 ==> int_text(i).len() > 0 && int_text(i)[0] == '-' && int_text(i).skip(1) == dec(
            (-i) as nat,
        ),
{
    if i < 0 {
        assert(int_text(i).skip(1) =~= dec((-i) as nat));
    }
}

/// Digits are read by their places: those in front count for as many powers of ten more as there
/// are behind them.
pub proof fn digits_are_read_by_their_places(front: Seq<char>, back: Seq<char>, c: char)
    requires
        all_digits(back),
        is_digit(c),
    ensures
        dec_value(front + back) == dec_value(front) * pow(10, back.len()) + dec_value(back),
        dec_value(seq![c]) == c as int - 0x30,
        dec_value(seq![]) == 0,
    decreases back.len(),
{
    reveal(pow);
    assert(seq![c].drop_last() =~= seq![]);
    assert(dec_value(seq![c].drop_last()) == 0);
    assert(dec_value(seq![c]) == c as int - 0x30);
    if back.len() == 0 {
        assert(front + back =~= front);
        assert(pow(10, 0) == 1);
    } else {
        let b = back.drop_last();
        let x = back.last();
        assert forall|i: int| 0 <= i < b.len() implies is_digit(#[trigger] b[i]) by {
            assert(b[i] == back[i]);
        }
        digits_are_read_by_their_places(front, b, c);
        assert((front + back).drop_last() =~= front + b);
        assert((front + back).last() == x);
        assert(is_digit(back[back.len() - 1]));
        let p = pow(10, b.len());
        assert(pow(10, back.len()) == 10 * p);
        assert(10 * (dec_value(front) * p + dec_value(b)) == dec_value(front) * (10 * p) + 10
            * dec_value(b)) by (nonlinear_arith);
    }
}

/// Every number that fits is read, with or without a plus sign and with any zeros in front; one that
/// does not fit is not.
pub proof fn numbers_are_read(n: nat, zeros: Seq<char>)
    requires
        forall|i: int| 0 <= i < zeros.len() ==> #[trigger] zeros[i] == '0',
    ensures
        n <= u64::MAX ==> parse_fitting(zeros + dec(n)) == Some(n as u64),
        n <= u64::MAX ==> parse_fitting(seq!['+'] + zeros + dec(n)) == Some(n as u64),
        n > u64::MAX ==> parse_fitting(zeros + dec(n)) is None,
        n > u64::MAX ==> parse_fitting(seq!['+'] + zeros + dec(n)) is None,
{
    let s = zeros + dec(n);
    let t = seq!['+'] + zeros + dec(n);
    lemma_dec(n);
    lemma_zeros(zeros);
    digits_are_read_by_their_places(zeros, dec(n), '0');
    assert(dec_value(s) == n) by (nonlinear_arith)
        requires
            dec_value(s) == 0 * pow(10, dec(n).len()) + dec_value(dec(n)),
            dec_value(dec(n)) == n,
    ;
    assert forall|i: int| 0 <= i < s.len() implies is_digit(#[trigger] s[i]) by {
        if i < zeros.len() {
            assert(zeros[i] == '0');
        } else {
            assert(is_digit(dec(n)[i - zeros.len()]));
        }
    }
    assert(is_digit(s[0]));
    assert(unsigned_part(s) == s);
    assert(t.skip(1) =~= s);
    assert(unsigned_part(t) == s);
}

proof fn lemma_zeros(zeros: Seq<char>)
    requires
        forall|i: int| 0 <= i < zeros.len() ==> #[trigger] zeros[i] == '0',
    ensures
        dec_value(zeros) == 0,
    decreases zeros.len(),
{
    if zeros.len() > 0 {
        let h = zeros.drop_last();
        assert forall|i: int| 0 <= i < h.len() implies #[trigger] h[i] == '0' by {
            assert(h[i] == zeros[i]);
        }
        lemma_zeros(h);
        assert(zeros[zeros.len() - 1] == '0');
    }
}

/// Nothing else is read: no text without a digit, and none that holds anything but digits behind an
/// optional plus sign.
pub proof fn other_texts_are_no_numbers(s: Seq<char>, k: int)
    requires
        s.len() == 0 || s == seq!['+'] || (0 <= k < s.len() && !('0' <= s[k] <= '9') && (k > 0
            || s[k] != '+')),
    ensures
        parse_fitting(s) is None,
{
    if s.len() > 0 && s != seq!['+'] {
        let d = unsigned_part(s);
        if s[0] == '+' {
            assert(d[k - 1] == s[k]);
        } else {
            assert(d[k] == s[k]);
        }
    } else if s == seq!['+'] {
        assert(s.skip(1).len() == 0);
    }
}

/// Whether `s` is nothing but white space.
pub open spec fn all_blank(s: Seq<char>) -> bool {
    forall|i: int| 0 <= i < s.len() ==> white_space(#[trigger] s[i])
}

/// Whether `s` holds no white space.
pub open spec fn all_inked(s: Seq<char>) -> bool {
    forall|i: int| 0 <= i < s.len() ==> !white_space(#[trigger] s[i])
}

proof fn lemma_leading_run(run: Seq<char>, rest: Seq<char>, p: spec_fn(char) -> bool)
    requires
        forall|i: int| 0 <= i < run.len() ==> p(#[trigger] run[i]),
        rest.len() > 0 ==> !p(rest[0]),
    ensures
        leading(run + rest, p) == run.len(),
    decreases run.len(),
{
    let s = run + rest;
    if run.len() == 0 {
        assert(s =~= rest);
    } else {
        let t = run.skip(1);
        assert(s[0] == run[0]);
        assert(s.skip(1) =~= t + rest);
        assert forall|i: int| 0 <= i < t.len() implies p(#[trigger] t[i]) by {
            assert(t[i] == run[i + 1]);
        }
        lemma_leading_run(t, rest, p);
    }
}

/// Words are found one after the other: past any white space in front, a run without white space
/// that ends the text or is followed by white space is the first word, and the words of what follows
/// come after it. White space alone has no words.
pub proof fn words_come_one_by_one(space: Seq<char>, first: Seq<char>, rest: Seq<char>)
    requires
        all_blank(space),
        all_inked(first),
        rest.len() > 0 ==> white_space(rest[0]),
    ensures
        words(space) == Seq::<Seq<char>>::empty(),
        first.len() > 0 ==> words(space + first + rest) == seq![first] + words(rest),
{
    let none = Seq::<char>::empty();
    assert(space + none =~= space);
    lemma_leading_run(space, none, blank());
    assert(trim_start(space) =~= none);
    assert(words(space) =~= seq![]);
    if first.len() > 0 {
        let s = space + first + rest;
        assert(s =~= space + (first + rest));
        assert((first + rest)[0] == first[0]);
        lemma_leading_run(space, first + rest, blank());
        assert(trim_start(s) =~= first + rest);
        lemma_leading_run(first, rest, inked());
        assert((first + rest).take(first.len() as int) =~= first);
        assert((first + rest).skip(first.len() as int) =~= rest);
    }
}

/// Capital Latin letters become small ones, thirty-two places on; all else stays as it is.
pub proof fn lower_case_moves_capital_letters(s: Seq<char>, i: int)
    requires
        0 <= i < s.len(),
    ensures
        lower(s).len() == s.len(),
        0x41 <= s[i] as int <= 0x5a ==> lower(s)[i] as int == s[i] as int + 0x20,
        !(0x41 <= s[i] as int <= 0x5a) ==> lower(s)[i] == s[i],
{
}

/// Slashes are taken off the front, all of them and nothing else.
pub proof fn slashes_come_off(slashes: Seq<char>, rest: Seq<char>)
    requires
        forall|i: int| 0 <= i < slashes.len() ==> #[trigger] slashes[i] == '/',
        rest.len() > 0 ==> rest[0] != '/',
    ensures
        trim_slashes(slashes + rest) == rest,
{
    lemma_leading_run(slashes, rest, slash());
    assert((slashes + rest).skip(slashes.len() as int) =~= rest);
}

/// Lines are put one under the other: two lists of lines are joined by one line break, and a single
/// line stays as it is.
pub proof fn lines_are_joined_by_breaks(a: Seq<Seq<char>>, b: Seq<Seq<char>>, line: Seq<char>)
    ensures
        join_lines(seq![]) == Seq::<char>::empty(),
        join_lines(seq![line]) == line,
        a.len() > 0 && b.len() > 0 ==> join_lines(a + b) == join_lines(a) + seq!['\n'] + join_lines(
            b,
        ),
    decreases b.len(),
{
    if a.len() > 0 && b.len() > 0 {
        let t = b.drop_last();
        assert((a + b).drop_last() =~= a + t);
        if t.len() == 0 {
            assert(a + t =~= a);
            assert(b[0] == b.last());
        } else {
            lines_are_joined_by_breaks(a, t, line);
            assert(join_lines(a) + seq!['\n'] + join_lines(t) + seq!['\n'] + b.last()
                =~= join_lines(a) + seq!['\n'] + (join_lines(t) + seq!['\n'] + b.last()));
        }
    }
}

}
