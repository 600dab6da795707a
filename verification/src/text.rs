//! Character-level text: decimal numbers, splitting, first-occurrence
//! replacement and trimming, all specified on the characters of a string.

use vstd::prelude::*;

verus! {

/// `String::push` appends one character.
pub assume_specification[ String::push ](s: &mut String, c: char)
    ensures
        final(s)@ == old(s)@.push(c),
;

// -- building and taking apart ------------------------------------------------

/// The characters of `s`, in order.
pub fn chars_of(s: &str) -> (out: Vec<char>)
    ensures
        out@ == s@,
{
    let mut out: Vec<char> = Vec::new();
    for c in it: s.chars()
        invariant
            out@ == s@.take(it.index() as int),
            it.seq() == s@,
    {
        out.push(c);
    }
    out
}

/// The string made of `chars[from..to]`.
pub fn string_of(chars: &Vec<char>, from: usize, to: usize) -> (out: String)
    requires
        from <= to <= chars@.len(),
    ensures
        out@ == chars@.subrange(from as int, to as int),
{
    let mut out: String = String::new();
    let mut k: usize = from;
    while k < to
        invariant
            from <= k <= to <= chars@.len(),
            out@ == chars@.subrange(from as int, k as int),
        decreases to - k,
    {
        out.push(chars[k]);
        k = k + 1;
    }
    out
}

/// `a` followed by `b`.
pub fn join2(a: &str, b: &str) -> (out: String)
    ensures
        out@ == a@ + b@,
{
    let mut out: String = a.to_owned();
    out.append(b);
    out
}

/// `a`, `b` and `c` one after the other.
pub fn join3(a: &str, b: &str, c: &str) -> (out: String)
    ensures
        out@ == a@ + b@ + c@,
{
    let mut out: String = a.to_owned();
    out.append(b);
    out.append(c);
    out
}

/// True when both strings hold the same characters.
pub fn same(a: &str, b: &str) -> (r: bool)
    ensures
        r == (a@ == b@),
{
    let x: Vec<char> = chars_of(a);
    let y: Vec<char> = chars_of(b);
    if x.len() != y.len() {
        return false;
    }
    let mut k: usize = 0;
    while k < x.len()
        invariant
            k <= x@.len(),
            x@ == a@,
            y@ == b@,
            x@.len() == y@.len(),
            forall|i: int| 0 <= i < k ==> x@[i] == y@[i],
        decreases x@.len() - k,
    {
        if x[k] != y[k] {
            return false;
        }
        k = k + 1;
    }
    assert(a@ =~= b@);
    true
}

// -- decimal numbers -----------------------------------------------------------

/// True for `0` to `9`.
pub open spec fn is_digit(c: char) -> bool {
    '0' <= c <= '9'
}

/// The value of one decimal digit.
pub open spec fn digit_value(c: char) -> nat {
    (c as int - '0' as int) as nat
}

/// The digit `d` as a character, for `d < 10`.
pub open spec fn digit_char(d: nat) -> char {
    ('0' as int + d) as char
}

/// The number that a string of digits writes in base ten.
pub open spec fn digits_value(s: Seq<char>) -> nat
    decreases s.len(),
{
    if s.len() == 0 {
        0
    } else {
        digits_value(s.drop_last()) * 10 + digit_value(s.last())
    }
}

/// `n` in base ten, with no leading zeros.
pub open spec fn decimal_text(n: nat) -> Seq<char>
    decreases n,
{
    if n < 10 {
        seq![digit_char(n)]
    } else {
        decimal_text(n / 10).push(digit_char(n % 10))
    }
}

/// True when every character is a digit and there is at least one.
pub open spec fn all_digits(s: Seq<char>) -> bool {
    s.len() > 0 && forall|i: int| 0 <= i < s.len() ==> is_digit(#[trigger] s[i])
}

/// The digits of an unsigned number: what follows one optional `+`.
pub open spec fn unsigned_digits(s: Seq<char>) -> Seq<char> {
    if s.len() > 0 && s[0] == '+' {
        s.skip(1)
    } else {
        s
    }
}

/// The unsigned number that `s` writes, or `None` when it writes none that
/// is at most `max`: one optional `+`, then one or more digits.
pub open spec fn unsigned_value(s: Seq<char>, max: nat) -> Option<nat> {
    let d = unsigned_digits(s);
    if all_digits(d) && digits_value(d) <= max {
        Some(digits_value(d))
    } else {
        None
    }
}

/// A decimal text is made of digits only and writes its number.
pub proof fn lemma_decimal_text(n: nat)
    ensures
        all_digits(decimal_text(n)),
        digits_value(decimal_text(n)) == n,
    decreases n,
{
    if n < 10 {
        let s = decimal_text(n);
        assert(s.drop_last() =~= Seq::<char>::empty());
        assert(digits_value(s.drop_last()) == 0);
        assert(s.last() == digit_char(n));
    } else {
        lemma_decimal_text(n / 10);
        let p = decimal_text(n / 10);
        let s = decimal_text(n);
        assert(s.drop_last() =~= p);
        assert(s.last() == digit_char(n % 10));
        assert forall|i: int| 0 <= i < s.len() implies is_digit(#[trigger] s[i]) by {
            if i < p.len() {
                assert(s[i] == p[i]);
            }
        }
    }
}

/// A number written in decimal reads back as itself.
pub proof fn law_decimal_reads_back(n: nat, max: nat)
    requires
        n <= max,
    ensures
        unsigned_value(decimal_text(n), max) == Some(n),
{
    lemma_decimal_text(n);
    let s = decimal_text(n);
    assert(is_digit(s[0]));
    assert(unsigned_digits(s) == s);
}

proof fn lemma_digits_value_monotone(s: Seq<char>, k: int)
    requires
        0 <= k <= s.len(),
    ensures
        digits_value(s.take(k)) <= digits_value(s),
    decreases s.len() - k,
{
    if k == s.len() {
        assert(s.take(k) =~= s);
    } else {
        lemma_digits_value_monotone(s, k + 1);
        assert(s.take(k + 1).drop_last() =~= s.take(k));
        let v = digits_value(s.take(k));
        assert(digits_value(s.take(k + 1)) == v * 10 + digit_value(s.take(k + 1).last()));
    }
}

/// One decimal digit as a character.
fn digit(d: u64) -> (c: char)
    requires
        d < 10,
    ensures
        c == digit_char(d as nat),
{
    if d == 0 {
        '0'
    } else if d == 1 {
        '1'
    } else if d == 2 {
        '2'
    } else if d == 3 {
        '3'
    } else if d == 4 {
        '4'
    } else if d == 5 {
        '5'
    } else if d == 6 {
        '6'
    } else if d == 7 {
        '7'
    } else if d == 8 {
        '8'
    } else {
        '9'
    }
}

/// `n` in base ten.
pub fn decimal(n: u64) -> (out: String)
    ensures
        out@ == decimal_text(n as nat),
    decreases n,
{
    if n < 10 {
        let mut out: String = String::new();
        out.push(digit(n));
        assert(out@ =~= decimal_text(n as nat));
        out
    } else {
        let mut out: String = decimal(n / 10);
        out.push(digit(n % 10));
        out
    }
}

/// The unsigned number that `s` writes, when it is at most `max`.
pub fn parse_unsigned(s: &str, max: u32) -> (r: Option<u32>)
    ensures
        r is Some == unsigned_value(s@, max as nat) is Some,
        r is Some ==> unsigned_value(s@, max as nat) == Some(r->0 as nat),
{
    let chars: Vec<char> = chars_of(s);
    let start: usize = if chars.len() > 0 && chars[0] == '+' {
        1
    } else {
        0
    };
    let ghost d = unsigned_digits(s@);
    assert(d =~= chars@.skip(start as int));
    if start >= chars.len() {
        return None;
    }
    let mut k: usize = start;
    let mut value: u64 = 0;
    while k < chars.len()
        invariant
            start <= k <= chars@.len(),
            start < chars@.len(),
            d == chars@.skip(start as int),
            d == unsigned_digits(s@),
            forall|i: int| 0 <= i < k - start ==> is_digit(#[trigger] d[i]),
            value == digits_value(d.take(k - start)),
            value <= max,
        decreases chars@.len() - k,
    {
        let c: char = chars[k];
        assert(c == d[k - start]);
        if c < '0' || c > '9' {
            return None;
        }
        proof {
            assert(d.take(k - start + 1).drop_last() =~= d.take(k - start));
            assert(d.take(k - start + 1).last() == c);
        }
        value = value * 10 + (c as u64 - '0' as u64);
        if value > max as u64 {
            proof {
                lemma_digits_value_monotone(d, k - start + 1);
            }
            return None;
        }
        k = k + 1;
    }
    assert(d.take(k - start) =~= d);
    Some(value as u32)
}

// -- finding and replacing -------------------------------------------------------

/// `p` stands in `s` at position `i`.
pub open spec fn occurs_at(s: Seq<char>, p: Seq<char>, i: int) -> bool {
    0 <= i && i + p.len() <= s.len() && s.subrange(i, i + p.len()) == p
}

/// `i` is the first place where `p` stands in `s`.
pub open spec fn first_at(s: Seq<char>, p: Seq<char>, i: int) -> bool {
    occurs_at(s, p, i) && forall|j: int| 0 <= j < i ==> !#[trigger] occurs_at(s, p, j)
}

/// `s` with its first occurrence of `p`, if any, replaced by `w`.
pub open spec fn replaced_first(s: Seq<char>, p: Seq<char>, w: Seq<char>) -> Seq<char> {
    if exists|i: int| first_at(s, p, i) {
        let i = choose|i: int| first_at(s, p, i);
        s.take(i) + w + s.skip(i + p.len())
    } else {
        s
    }
}

/// True when `p` stands in `s` at position `i`.
fn matches_at(s: &Vec<char>, p: &Vec<char>, i: usize) -> (r: bool)
    requires
        i + p@.len() <= s@.len(),
    ensures
        r == occurs_at(s@, p@, i as int),
{
    let total: usize = s.len();
    let mut k: usize = 0;
    while k < p.len()
        invariant
            k <= p@.len(),
            i + p@.len() <= s@.len(),
            total == s@.len(),
            forall|j: int| 0 <= j < k ==> s@[i + j] == p@[j],
        decreases p@.len() - k,
    {
        if s[i + k] != p[k] {
            assert(s@.subrange(i as int, i + p@.len())[k as int] != p@[k as int]);
            return false;
        }
        k = k + 1;
    }
    assert(s@.subrange(i as int, i + p@.len()) =~= p@);
    true
}

/// Where `p` first stands in `s`.
fn find(s: &Vec<char>, p: &Vec<char>) -> (r: Option<usize>)
    ensures
        r is Some ==> first_at(s@, p@, r->0 as int),
        r is None ==> forall|i: int| !#[trigger] occurs_at(s@, p@, i),
{
    if p.len() > s.len() {
        return None;
    }
    let last: usize = s.len() - p.len();
    let mut i: usize = 0;
    while i <= last
        invariant
            last + p@.len() == s@.len(),
            i <= last + 1,
            forall|j: int| 0 <= j < i ==> !#[trigger] occurs_at(s@, p@, j),
        decreases last + 1 - i,
    {
        if matches_at(s, p, i) {
            return Some(i);
        }
        if i == last {
            return None;
        }
        i = i + 1;
    }
    None
}

/// `s` with its first occurrence of `p`, if any, replaced by `w`.
pub fn replace_first(s: &str, p: &str, w: &str) -> (out: String)
    ensures
        out@ == replaced_first(s@, p@, w@),
{
    let chars: Vec<char> = chars_of(s);
    let pattern: Vec<char> = chars_of(p);
    match find(&chars, &pattern) {
        None => s.to_owned(),
        Some(i) => {
            proof {
                let j = choose|j: int| first_at(s@, p@, j);
                assert(j == i) by {
                    assert(first_at(s@, p@, i as int));
                    assert(occurs_at(s@, p@, i as int));
                    assert(occurs_at(s@, p@, j));
                }
            }
            let total: usize = chars.len();
            let mut out: String = string_of(&chars, 0, i);
            out.append(w);
            let tail: String = string_of(&chars, i + pattern.len(), total);
            out.append(tail.as_str());
            assert(out@ =~= s@.take(i as int) + w@ + s@.skip(i + p@.len()));
            out
        },
    }
}

// -- prefixes and suffixes -------------------------------------------------------

/// `s` ends with `suffix`.
pub open spec fn has_suffix(s: Seq<char>, suffix: Seq<char>) -> bool {
    s.len() >= suffix.len() && s.skip(s.len() - suffix.len()) == suffix
}

/// `s` begins with `prefix`.
pub open spec fn has_prefix(s: Seq<char>, prefix: Seq<char>) -> bool {
    s.len() >= prefix.len() && s.take(prefix.len() as int) == prefix
}

/// `s` without `suffix`, if it ends with it.
pub fn strip_suffix(s: &str, suffix: &str) -> (r: Option<String>)
    ensures
        r is Some <==> has_suffix(s@, suffix@),
        r is Some ==> r->0@ == s@.take(s@.len() - suffix@.len()),
{
    let chars: Vec<char> = chars_of(s);
    let tail: Vec<char> = chars_of(suffix);
    if chars.len() < tail.len() {
        return None;
    }
    let cut: usize = chars.len() - tail.len();
    assert(s@.skip(cut as int) =~= s@.subrange(cut as int, cut + suffix@.len()));
    if matches_at(&chars, &tail, cut) {
        Some(string_of(&chars, 0, cut))
    } else {
        None
    }
}

/// `s` without `prefix`, if it begins with it.
pub fn strip_prefix(s: &str, prefix: &str) -> (r: Option<String>)
    ensures
        r is Some <==> has_prefix(s@, prefix@),
        r is Some ==> r->0@ == s@.skip(prefix@.len() as int),
{
    let chars: Vec<char> = chars_of(s);
    let head: Vec<char> = chars_of(prefix);
    if chars.len() < head.len() {
        return None;
    }
    assert(s@.take(prefix@.len() as int) =~= s@.subrange(0, prefix@.len() as int));
    if matches_at(&chars, &head, 0) {
        let r: String = string_of(&chars, head.len(), chars.len());
        assert(r@ =~= s@.skip(prefix@.len() as int));
        Some(r)
    } else {
        None
    }
}

// -- splitting and trimming ------------------------------------------------------

/// The pieces of `s` between occurrences of `sep`; always at least one.
pub open spec fn pieces(s: Seq<char>, sep: char) -> Seq<Seq<char>>
    decreases s.len(),
{
    if s.len() == 0 {
        seq![Seq::empty()]
    } else {
        let before = pieces(s.drop_last(), sep);
        if s.last() == sep {
            before.push(Seq::empty())
        } else {
            before.drop_last().push(before.last().push(s.last()))
        }
    }
}

/// Strings as character sequences.
pub open spec fn views(strings: Seq<String>) -> Seq<Seq<char>> {
    strings.map_values(|s: String| s@)
}

/// There is always a piece.
pub proof fn lemma_pieces_nonempty(s: Seq<char>, sep: char)
    ensures
        pieces(s, sep).len() > 0,
    decreases s.len(),
{
    if s.len() > 0 {
        lemma_pieces_nonempty(s.drop_last(), sep);
    }
}

/// The pieces of `s` between occurrences of `sep`.
pub fn split(s: &str, sep: char) -> (out: Vec<String>)
    ensures
        views(out@) == pieces(s@, sep),
        out@.len() > 0,
{
    let chars: Vec<char> = chars_of(s);
    let mut out: Vec<String> = Vec::new();
    let mut current: String = String::new();
    let mut k: usize = 0;
    assert(s@.take(0) =~= Seq::empty());
    assert(views(out@).push(current@) =~= seq![Seq::empty()]);
    while k < chars.len()
        invariant
            k <= chars@.len(),
            chars@ == s@,
            views(out@).push(current@) == pieces(s@.take(k as int), sep),
        decreases chars@.len() - k,
    {
        let c: char = chars[k];
        let ghost before = views(out@);
        let ghost now = current@;
        assert(s@.take(k + 1).drop_last() =~= s@.take(k as int));
        assert(s@.take(k + 1).last() == c);
        if c == sep {
            out.push(current);
            current = String::new();
            assert(views(out@) =~= before.push(now));
        } else {
            current.push(c);
            assert(before.push(now).drop_last() =~= before);
        }
        k = k + 1;
    }
    assert(s@.take(k as int) =~= s@);
    let ghost before = views(out@);
    let ghost now = current@;
    out.push(current);
    assert(views(out@) =~= before.push(now));
    out
}

/// Text without `sep` is one piece.
pub proof fn lemma_single_piece(s: Seq<char>, sep: char)
    requires
        !s.contains(sep),
    ensures
        pieces(s, sep) == seq![s],
    decreases s.len(),
{
    if s.len() > 0 {
        let front = s.drop_last();
        assert forall|i: int| 0 <= i < front.len() implies front[i] != sep by {
            assert(s[i] == front[i]);
            assert(s.contains(s[i]));
        }
        lemma_single_piece(front, sep);
        assert(s.contains(s.last())) by {
            assert(s[s.len() - 1] == s.last());
        }
        assert(front.push(s.last()) =~= s);
        assert(pieces(s, sep) =~= seq![s]);
    } else {
        assert(s =~= Seq::empty());
    }
}

/// Splitting at a separator between two texts splits each of them.
pub proof fn lemma_pieces_of_two(a: Seq<char>, b: Seq<char>, sep: char)
    ensures
        pieces(a + seq![sep] + b, sep) == pieces(a, sep) + pieces(b, sep),
    decreases b.len(),
{
    let s = a + seq![sep] + b;
    lemma_pieces_nonempty(b, sep);
    if b.len() == 0 {
        assert(s.drop_last() =~= a);
        assert(pieces(s, sep) =~= pieces(a, sep) + pieces(b, sep));
    } else {
        let c = b.drop_last();
        lemma_pieces_of_two(a, c, sep);
        lemma_pieces_nonempty(c, sep);
        assert(s.drop_last() =~= a + seq![sep] + c);
        assert(s.last() == b.last());
        assert(pieces(s, sep) =~= pieces(a, sep) + pieces(b, sep));
    }
}

/// The pieces put together again, `sep` between them.
pub open spec fn joined(parts: Seq<Seq<char>>, sep: char) -> Seq<char>
    decreases parts.len(),
{
    if parts.len() == 0 {
        Seq::empty()
    } else if parts.len() == 1 {
        parts[0]
    } else {
        joined(parts.drop_last(), sep).push(sep) + parts.last()
    }
}

/// The pieces are exactly what stands between the separators: none holds a
/// separator, and put together they are the text again.
pub proof fn law_pieces_rejoin(s: Seq<char>, sep: char)
    ensures
        joined(pieces(s, sep), sep) == s,
        forall|i: int| 0 <= i < pieces(s, sep).len() ==> !(#[trigger] pieces(s, sep)[i]).contains(
            sep,
        ),
    decreases s.len(),
{
    if s.len() == 0 {
        assert(joined(pieces(s, sep), sep) =~= s);
    } else {
        let front = s.drop_last();
        let before = pieces(front, sep);
        law_pieces_rejoin(front, sep);
        lemma_pieces_nonempty(front, sep);
        let now = pieces(s, sep);
        if s.last() == sep {
            assert(now.drop_last() =~= before);
            assert(joined(now, sep) =~= s);
        } else {
            assert(now.drop_last() =~= before.drop_last());
            assert(joined(now, sep) =~= joined(before, sep).push(s.last()));
            assert(joined(now, sep) =~= s);
            let grown = before.last().push(s.last());
            assert(!grown.contains(sep)) by {
                if grown.contains(sep) {
                    let i = choose|i: int| 0 <= i < grown.len() && grown[i] == sep;
                    assert(before.last()[i] == sep);
                    assert(before.last() == before[before.len() - 1]);
                    assert(before.last().contains(sep));
                }
            }
        }
        assert forall|i: int| 0 <= i < now.len() implies !(#[trigger] now[i]).contains(sep) by {
            if i < before.len() - 1 {
                assert(now[i] == before[i]);
            }
            if s.last() == sep && i == before.len() - 1 {
                assert(now[i] == before[i]);
            }
        }
    }
}

/// Unicode white space.
pub open spec fn is_space(c: char) -> bool {
    let n = c as u32;
    ||| 9 <= n <= 13
    ||| n == 0x20 || n == 0x85 || n == 0xa0 || n == 0x1680
    ||| 0x2000 <= n <= 0x200a
    ||| n == 0x2028 || n == 0x2029 || n == 0x202f || n == 0x205f || n == 0x3000
}

/// True for Unicode white space.
fn space(c: char) -> (r: bool)
    ensures
        r == is_space(c),
{
    let n: u32 = c as u32;
    (9 <= n && n <= 13) || n == 0x20 || n == 0x85 || n == 0xa0 || n == 0x1680 || (0x2000 <= n && n
        <= 0x200a) || n == 0x2028 || n == 0x2029 || n == 0x202f || n == 0x205f || n == 0x3000
}

/// `s` without white space in front.
pub open spec fn trimmed_front(s: Seq<char>) -> Seq<char>
    decreases s.len(),
{
    if s.len() > 0 && is_space(s[0]) {
        trimmed_front(s.skip(1))
    } else {
        s
    }
}

/// `s` without white space behind.
pub open spec fn trimmed_back(s: Seq<char>) -> Seq<char>
    decreases s.len(),
{
    if s.len() > 0 && is_space(s.last()) {
        trimmed_back(s.drop_last())
    } else {
        s
    }
}

/// `s` without white space on either side.
pub fn trim(s: &str) -> (out: String)
    ensures
        out@ == trimmed_back(trimmed_front(s@)),
{
    let chars: Vec<char> = chars_of(s);
    let mut from: usize = 0;
    assert(s@.skip(0) =~= s@);
    while from < chars.len() && space(chars[from])
        invariant
            chars@ == s@,
            from <= chars@.len(),
            trimmed_front(s@) == trimmed_front(s@.skip(from as int)),
        decreases chars@.len() - from,
    {
        assert(s@.skip(from as int).skip(1) =~= s@.skip(from + 1));
        from = from + 1;
    }
    let ghost front = trimmed_front(s@);
    assert(front == s@.skip(from as int));
    let mut to: usize = chars.len();
    assert(s@.subrange(from as int, to as int) =~= front);
    while from < to && space(chars[to - 1])
        invariant
            chars@ == s@,
            from <= to <= chars@.len(),
            trimmed_back(front) == trimmed_back(s@.subrange(from as int, to as int)),
        decreases to,
    {
        assert(s@.subrange(from as int, to as int).drop_last() =~= s@.subrange(
            from as int,
            to - 1,
        ));
        to = to - 1;
    }
    string_of(&chars, from, to)
}

/// `s` without any `c` in front.
pub open spec fn without_leading(s: Seq<char>, c: char) -> Seq<char>
    decreases s.len(),
{
    if s.len() > 0 && s[0] == c {
        without_leading(s.skip(1), c)
    } else {
        s
    }
}

/// `s` without any `c` behind.
pub open spec fn without_trailing(s: Seq<char>, c: char) -> Seq<char>
    decreases s.len(),
{
    if s.len() > 0 && s.last() == c {
        without_trailing(s.drop_last(), c)
    } else {
        s
    }
}

/// `s` without any `c` in front.
pub fn trim_leading(s: &str, c: char) -> (out: String)
    ensures
        out@ == without_leading(s@, c),
{
    let chars: Vec<char> = chars_of(s);
    let mut from: usize = 0;
    assert(s@.skip(0) =~= s@);
    while from < chars.len() && chars[from] == c
        invariant
            chars@ == s@,
            from <= chars@.len(),
            without_leading(s@, c) == without_leading(s@.skip(from as int), c),
        decreases chars@.len() - from,
    {
        assert(s@.skip(from as int).skip(1) =~= s@.skip(from + 1));
        from = from + 1;
    }
    let out: String = string_of(&chars, from, chars.len());
    assert(out@ =~= s@.skip(from as int));
    out
}

/// `s` without any `c` behind.
pub fn trim_trailing(s: &str, c: char) -> (out: String)
    ensures
        out@ == without_trailing(s@, c),
{
    let chars: Vec<char> = chars_of(s);
    let mut to: usize = chars.len();
    assert(s@.take(to as int) =~= s@);
    while to > 0 && chars[to - 1] == c
        invariant
            chars@ == s@,
            to <= chars@.len(),
            without_trailing(s@, c) == without_trailing(s@.take(to as int), c),
        decreases to,
    {
        assert(s@.take(to as int).drop_last() =~= s@.take(to - 1));
        to = to - 1;
    }
    let out: String = string_of(&chars, 0, to);
    assert(out@ =~= s@.take(to as int));
    out
}

/// Where `p` stands between `front` and `back` and nowhere before, replacing
/// its first occurrence puts `w` in its place and changes nothing else; where
/// it stands nowhere, nothing is changed.
pub proof fn law_first_occurrence_is_replaced(
    front: Seq<char>,
    p: Seq<char>,
    back: Seq<char>,
    w: Seq<char>,
)
    requires
        forall|j: int| 0 <= j < front.len() ==> !#[trigger] occurs_at(front + p + back, p, j),
    ensures
        replaced_first(front + p + back, p, w) == front + w + back,
{
    let s = front + p + back;
    let at = front.len() as int;
    assert(s.subrange(at, at + p.len()) =~= p);
    assert(occurs_at(s, p, at));
    assert(first_at(s, p, at));
    let i = choose|i: int| first_at(s, p, i);
    assert(i == at) by {
        if i < at {
            assert(!occurs_at(s, p, i));
        }
        if at < i {
            assert(!occurs_at(s, p, at));
        }
    }
    assert(s.take(at) =~= front);
    assert(s.skip(at + p.len()) =~= back);
}

/// A text without `p` is left as it is.
pub proof fn law_nothing_to_replace(s: Seq<char>, p: Seq<char>, w: Seq<char>)
    requires
        forall|j: int| !#[trigger] occurs_at(s, p, j),
    ensures
        replaced_first(s, p, w) == s,
{
}

/// Numbers are written in base ten, the highest digit first and without
/// leading zeros.
pub proof fn law_decimals_are_base_ten(n: nat)
    ensures
        decimal_text(n).last() as int == '0' as int + n % 10,
        n < 10 ==> decimal_text(n).len() == 1,
        n >= 10 ==> decimal_text(n).drop_last() == decimal_text(n / 10),
{
    if n >= 10 {
        assert(decimal_text(n).drop_last() =~= decimal_text(n / 10));
    }
}

/// Digits are read in base ten: one more behind a number makes it ten times
/// as much and adds its own value. What reads as a number is digits, behind
/// at most one `+`, and no more than is allowed.
pub proof fn law_numbers_are_read_in_base_ten(s: Seq<char>, c: char, max: nat)
    requires
        '0' <= c <= '9',
    ensures
        digits_value(s.push(c)) == 10 * digits_value(s) + (c as int - '0' as int),
        digits_value(Seq::empty()) == 0,
        unsigned_value(s, max) is Some ==> {
            let d = if s.len() > 0 && s[0] == '+' {
                s.skip(1)
            } else {
                s
            };
            &&& d.len() > 0
            &&& forall|i: int| 0 <= i < d.len() ==> '0' <= #[trigger] d[i] <= '9'
            &&& unsigned_value(s, max)->0 == digits_value(d)
            &&& unsigned_value(s, max)->0 <= max
        },
{
    assert(s.push(c).drop_last() =~= s);
    if unsigned_value(s, max) is Some {
        let d = unsigned_digits(s);
        assert forall|i: int| 0 <= i < d.len() implies '0' <= #[trigger] d[i] <= '9' by {
            assert(is_digit(d[i]));
        }
    }
}

/// Trimming cuts white space off both ends and nothing else: what is left
/// begins and ends with something else, and what was cut is white space.
pub proof fn law_trimming_cuts_white_space_only(s: Seq<char>)
    ensures
        ({
            let t = trimmed_back(trimmed_front(s));
            &&& t.len() > 0 ==> !is_space(t[0]) && !is_space(t.last())
            &&& exists|i: int, j: int|
                {
                    &&& 0 <= i <= j <= s.len()
                    &&& #[trigger] s.subrange(i, j) == t
                    &&& forall|k: int| 0 <= k < i ==> is_space(#[trigger] s[k])
                    &&& forall|k: int| j <= k < s.len() ==> is_space(#[trigger] s[k])
                }
        }),
{
    let f = trimmed_front(s);
    let i = lemma_cut_front(s);
    let m = lemma_cut_back(f);
    let t = trimmed_back(f);
    assert(s.subrange(i, i + m) =~= t);
    assert forall|k: int| i + m <= k < s.len() implies is_space(#[trigger] s[k]) by {
        assert(s[k] == f[k - i]);
    }
    if t.len() > 0 {
        assert(t[0] == f[0]);
    }
}

proof fn lemma_cut_front(s: Seq<char>) -> (i: int)
    ensures
        0 <= i <= s.len(),
        trimmed_front(s) == s.skip(i),
        forall|k: int| 0 <= k < i ==> is_space(#[trigger] s[k]),
        trimmed_front(s).len() > 0 ==> !is_space(trimmed_front(s)[0]),
    decreases s.len(),
{
    if s.len() > 0 && is_space(s[0]) {
        let rest = s.skip(1);
        let i = lemma_cut_front(rest);
        assert(s.skip(i + 1) =~= rest.skip(i));
        assert forall|k: int| 0 <= k < i + 1 implies is_space(#[trigger] s[k]) by {
            if k > 0 {
                assert(rest[k - 1] == s[k]);
            }
        }
        i + 1
    } else {
        assert(s.skip(0) =~= s);
        0
    }
}

proof fn lemma_cut_back(s: Seq<char>) -> (m: int)
    ensures
        0 <= m <= s.len(),
        trimmed_back(s) == s.take(m),
        forall|k: int| m <= k < s.len() ==> is_space(#[trigger] s[k]),
        trimmed_back(s).len() > 0 ==> !is_space(trimmed_back(s).last()),
    decreases s.len(),
{
    if s.len() > 0 && is_space(s.last()) {
        let front = s.drop_last();
        let m = lemma_cut_back(front);
        assert(s.take(m) =~= front.take(m));
        assert forall|k: int| m <= k < s.len() implies is_space(#[trigger] s[k]) by {
            if k < front.len() {
                assert(front[k] == s[k]);
            }
        }
        m
    } else {
        assert(s.take(s.len() as int) =~= s);
        s.len() as int
    }
}

/// Cutting a character off the front or the back cuts all of it there and
/// nothing else.
pub proof fn law_cutting_leaves_the_rest(s: Seq<char>, c: char)
    ensures
        without_leading(s, c).len() > 0 ==> without_leading(s, c)[0] != c,
        without_trailing(s, c).len() > 0 ==> without_trailing(s, c).last() != c,
        exists|i: int|
            {
                &&& 0 <= i <= s.len()
                &&& #[trigger] s.skip(i) == without_leading(s, c)
                &&& forall|k: int| 0 <= k < i ==> #[trigger] s[k] == c
            },
        exists|m: int|
            {
                &&& 0 <= m <= s.len()
                &&& #[trigger] s.take(m) == without_trailing(s, c)
                &&& forall|k: int| m <= k < s.len() ==> #[trigger] s[k] == c
            },
{
    let i = lemma_leading(s, c);
    let m = lemma_trailing(s, c);
    assert(s.skip(i) == without_leading(s, c));
    assert(s.take(m) == without_trailing(s, c));
}

proof fn lemma_leading(s: Seq<char>, c: char) -> (i: int)
    ensures
        0 <= i <= s.len(),
        without_leading(s, c) == s.skip(i),
        forall|k: int| 0 <= k < i ==> #[trigger] s[k] == c,
        without_leading(s, c).len() > 0 ==> without_leading(s, c)[0] != c,
    decreases s.len(),
{
    if s.len() > 0 && s[0] == c {
        let rest = s.skip(1);
        let i = lemma_leading(rest, c);
        assert(s.skip(i + 1) =~= rest.skip(i));
        assert forall|k: int| 0 <= k < i + 1 implies #[trigger] s[k] == c by {
            if k > 0 {
                assert(rest[k - 1] == s[k]);
            }
        }
        i + 1
    } else {
        assert(s.skip(0) =~= s);
        0
    }
}

proof fn lemma_trailing(s: Seq<char>, c: char) -> (m: int)
    ensures
        0 <= m <= s.len(),
        without_trailing(s, c) == s.take(m),
        forall|k: int| m <= k < s.len() ==> #[trigger] s[k] == c,
        without_trailing(s, c).len() > 0 ==> without_trailing(s, c).last() != c,
    decreases s.len(),
{
    if s.len() > 0 && s.last() == c {
        let front = s.drop_last();
        let m = lemma_trailing(front, c);
        assert(s.take(m) =~= front.take(m));
        assert forall|k: int| m <= k < s.len() implies #[trigger] s[k] == c by {
            if k < front.len() {
                assert(front[k] == s[k]);
            }
        }
        m
    } else {
        assert(s.take(s.len() as int) =~= s);
        s.len() as int
    }
}

/// A text begins with another where it is that and something behind it, and
/// ends with it where it is something and that.
pub proof fn law_beginnings_and_ends(s: Seq<char>, part: Seq<char>)
    ensures
        has_prefix(s, part) <==> exists|rest: Seq<char>| s == #[trigger] (part + rest),
        has_suffix(s, part) <==> exists|front: Seq<char>| s == #[trigger] (front + part),
{
    if has_prefix(s, part) {
        assert(s =~= part + s.skip(part.len() as int));
    }
    if exists|rest: Seq<char>| s == #[trigger] (part + rest) {
        assert(s.take(part.len() as int) =~= part);
    }
    if has_suffix(s, part) {
        assert(s =~= s.take(s.len() - part.len()) + part);
    }
    if exists|front: Seq<char>| s == #[trigger] (front + part) {
        assert(s.skip(s.len() - part.len()) =~= part);
    }
}

} // verus!
