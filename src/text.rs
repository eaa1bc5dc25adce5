use vstd::prelude::*;

verus! {

/// The characters that carry the Unicode White_Space property.
pub open spec fn white_space(c: char) -> bool {
    ('\u{9}' <= c && c <= '\u{d}') || c == ' ' || c == '\u{85}' || c == '\u{a0}' || c
        == '\u{1680}' || ('\u{2000}' <= c && c <= '\u{200a}') || c == '\u{2028}' || c
        == '\u{2029}' || c == '\u{202f}' || c == '\u{205f}' || c == '\u{3000}'
}

/// `s` without its leading white space.
pub open spec fn trim_start_view(s: Seq<char>) -> Seq<char>
    decreases s.len(),
{
    if s.len() > 0 && white_space(s[0]) {
        trim_start_view(s.drop_first())
    } else {
        s
    }
}

/// `s` without its trailing white space.
pub open spec fn trim_end_view(s: Seq<char>) -> Seq<char>
    decreases s.len(),
{
    if s.len() > 0 && white_space(s.last()) {
        trim_end_view(s.drop_last())
    } else {
        s
    }
}

/// `s` without leading and trailing white space.
pub open spec fn trim_view(s: Seq<char>) -> Seq<char> {
    trim_end_view(trim_start_view(s))
}

/// Relies on `char::is_whitespace`: true exactly for the Unicode White_Space characters.
#[verifier::external_body]
pub(crate) fn is_white_space(c: char) -> (r: bool)
    ensures
        r == white_space(c),
{
    c.is_whitespace()
}

/// Relies on `str::trim`: removes leading and trailing White_Space characters.
#[verifier::external_body]
pub(crate) fn trim_str(s: &str) -> (r: &str)
    ensures
        r@ == trim_view(s@),
{
    s.trim()
}

/// Relies on `str::chars`: yields the characters of the string in order.
#[verifier::external_body]
pub(crate) fn chars_of(s: &str) -> (r: Vec<char>)
    ensures
        r@ == s@,
{
    s.chars().collect()
}

/// Relies on `String: FromIterator<&char>`: the string holds exactly the given characters.
#[verifier::external_body]
pub(crate) fn string_of(cs: &Vec<char>) -> (r: String)
    ensures
        r@ == cs@,
{
    cs.iter().collect()
}

/// Whether two character sequences are equal.
pub fn same_chars(a: &Vec<char>, b: &Vec<char>) -> (r: bool)
    ensures
        r == (a@ == b@),
{
    if a.len() != b.len() {
        return false;
    }
    let mut i: usize = 0;
    while i < a.len()
        invariant
            a.len() == b.len(),
            0 <= i <= a.len(),
            a@.subrange(0, i as int) == b@.subrange(0, i as int),
        decreases a.len() - i,
    {
        if a[i] != b[i] {
            assert(a@[i as int] != b@[i as int]);
            return false;
        }
        assert(a@.subrange(0, i + 1) == a@.subrange(0, i as int).push(a@[i as int]));
        assert(b@.subrange(0, i + 1) == b@.subrange(0, i as int).push(b@[i as int]));
        i = i + 1;
    }
    assert(a@ == a@.subrange(0, a@.len() as int));
    assert(b@ == b@.subrange(0, b@.len() as int));
    true
}

/// `s` cut at every occurrence of `sep`, as `str::split` does: an empty input
/// gives one empty piece.
pub open spec fn split_view(s: Seq<char>, sep: char) -> Seq<Seq<char>>
    decreases s.len(),
{
    if s.len() == 0 {
        seq![Seq::<char>::empty()]
    } else {
        let rest = split_view(s.drop_last(), sep);
        if s.last() == sep {
            rest.push(Seq::<char>::empty())
        } else {
            rest.update(rest.len() - 1, rest.last().push(s.last()))
        }
    }
}

proof fn lemma_split_view_nonempty(s: Seq<char>, sep: char)
    ensures
        split_view(s, sep).len() >= 1,
    decreases s.len(),
{
    if s.len() > 0 {
        lemma_split_view_nonempty(s.drop_last(), sep);
    }
}

/// The pieces of `s` between occurrences of `sep`.
pub fn split_chars(s: &Vec<char>, sep: char) -> (r: Vec<Vec<char>>)
    ensures
        r@.map_values(|p: Vec<char>| p@) == split_view(s@, sep),
{
    let mut pieces: Vec<Vec<char>> = Vec::new();
    let mut cur: Vec<char> = Vec::new();
    let mut i: usize = 0;
    while i < s.len()
        invariant
            0 <= i <= s.len(),
            pieces@.map_values(|p: Vec<char>| p@).push(cur@) == split_view(
                s@.subrange(0, i as int),
                sep,
            ),
        decreases s.len() - i,
    {
        let c = s[i];
        proof {
            let t = s@.subrange(0, i + 1);
            assert(t.drop_last() == s@.subrange(0, i as int));
            assert(t.last() == c);
            lemma_split_view_nonempty(s@.subrange(0, i as int), sep);
        }
        if c == sep {
            let ghost before = pieces@.map_values(|p: Vec<char>| p@).push(cur@);
            let done = cur;
            pieces.push(done);
            cur = Vec::new();
            assert(pieces@.map_values(|p: Vec<char>| p@).push(cur@) == before.push(
                Seq::<char>::empty(),
            ));
        } else {
            let ghost before = pieces@.map_values(|p: Vec<char>| p@).push(cur@);
            cur.push(c);
            assert(pieces@.map_values(|p: Vec<char>| p@).push(cur@) == before.update(
                before.len() - 1,
                before.last().push(c),
            ));
        }
        i = i + 1;
    }
    assert(s@.subrange(0, s@.len() as int) == s@);
    let ghost before = pieces@.map_values(|p: Vec<char>| p@).push(cur@);
    pieces.push(cur);
    assert(pieces@.map_values(|p: Vec<char>| p@) == before);
    pieces
}

/// The first position of `s` that holds `c` or `d`, if any.
pub open spec fn first_index(s: Seq<char>, c: char, d: char) -> Option<int> {
    if exists|p: int| first_at(s, c, d, p) {
        Some(choose|p: int| first_at(s, c, d, p))
    } else {
        None
    }
}

/// `p` is the first position of `s` that holds `c` or `d`.
pub open spec fn first_at(s: Seq<char>, c: char, d: char, p: int) -> bool {
    &&& 0 <= p < s.len()
    &&& (s[p] == c || s[p] == d)
    &&& forall|q: int| 0 <= q < p ==> s[q] != c && s[q] != d
}

pub proof fn lemma_first_at_unique(s: Seq<char>, c: char, d: char, p: int, q: int)
    requires
        first_at(s, c, d, p),
        first_at(s, c, d, q),
    ensures
        p == q,
{
    if p < q {
        assert(s[p] != c && s[p] != d);
    } else if q < p {
        assert(s[q] != c && s[q] != d);
    }
}

/// The first position of `s` that holds `c` or `d`.
pub fn find_first(s: &Vec<char>, c: char, d: char) -> (r: Option<usize>)
    ensures
        r matches Some(p) ==> first_index(s@, c, d) == Some(p as int),
        r is None ==> first_index(s@, c, d) is None,
{
    let mut i: usize = 0;
    while i < s.len()
        invariant
            0 <= i <= s.len(),
            forall|q: int| 0 <= q < i ==> s@[q] != c && s@[q] != d,
        decreases s.len() - i,
    {
        if s[i] == c || s[i] == d {
            proof {
                assert(first_at(s@, c, d, i as int));
                let p = choose|p: int| first_at(s@, c, d, p);
                lemma_first_at_unique(s@, c, d, p, i as int);
            }
            return Some(i);
        }
        i = i + 1;
    }
    assert forall|p: int| !first_at(s@, c, d, p) by {
        if 0 <= p < s@.len() {
            assert(s@[p] != c && s@[p] != d);
        }
    }
    None
}

/// The characters of `s` from `from` up to `to`.
pub fn sub_chars(s: &Vec<char>, from: usize, to: usize) -> (r: Vec<char>)
    requires
        from <= to <= s.len(),
    ensures
        r@ == s@.subrange(from as int, to as int),
{
    let mut r: Vec<char> = Vec::new();
    let mut i: usize = from;
    while i < to
        invariant
            from <= i <= to <= s.len(),
            r@ == s@.subrange(from as int, i as int),
        decreases to - i,
    {
        r.push(s[i]);
        i = i + 1;
    }
    r
}

/// Whether `s` begins with `prefix`.
pub fn starts_with_chars(s: &Vec<char>, prefix: &Vec<char>) -> (r: bool)
    ensures
        r == (prefix@.len() <= s@.len() && s@.subrange(0, prefix@.len() as int) == prefix@),
{
    if prefix.len() > s.len() {
        return false;
    }
    let mut i: usize = 0;
    while i < prefix.len()
        invariant
            prefix.len() <= s.len(),
            0 <= i <= prefix.len(),
            forall|q: int| 0 <= q < i ==> s@[q] == prefix@[q],
        decreases prefix.len() - i,
    {
        if s[i] != prefix[i] {
            assert(s@.subrange(0, prefix@.len() as int)[i as int] != prefix@[i as int]);
            return false;
        }
        i = i + 1;
    }
    assert(s@.subrange(0, prefix@.len() as int) =~= prefix@);
    true
}

/// `b` names a dataset strictly below `a`: `a`, a slash, then more.
pub open spec fn descends(a: Seq<char>, b: Seq<char>) -> bool {
    &&& b.len() > a.len()
    &&& b.subrange(0, a.len() as int) == a
    &&& b[a.len() as int] == '/'
}

/// Whether `b` names a dataset strictly below `a`.
pub fn descends_chars(a: &Vec<char>, b: &Vec<char>) -> (r: bool)
    ensures
        r == descends(a@, b@),
{
    b.len() > a.len() && starts_with_chars(b, a) && b[a.len()] == '/'
}

/// Appends the characters of `s`.
pub fn push_str(buf: &mut Vec<char>, s: &str)
    ensures
        final(buf)@ == old(buf)@ + s@,
{
    let cs = chars_of(s);
    let ghost start = buf@;
    let mut i: usize = 0;
    while i < cs.len()
        invariant
            0 <= i <= cs.len(),
            cs@ == s@,
            buf@ == start + cs@.subrange(0, i as int),
        decreases cs.len() - i,
    {
        buf.push(cs[i]);
        assert(cs@.subrange(0, i + 1) =~= cs@.subrange(0, i as int).push(cs@[i as int]));
        i = i + 1;
    }
    assert(cs@.subrange(0, cs.len() as int) =~= cs@);
}

/// The text of `a` followed by that of `b`.
pub fn concat_str(a: &str, b: &str) -> (r: String)
    ensures
        r@ == a@ + b@,
{
    let mut buf: Vec<char> = Vec::new();
    push_str(&mut buf, a);
    push_str(&mut buf, b);
    assert(buf@ =~= a@ + b@);
    string_of(&buf)
}

/// The decimal digit for `d`.
pub open spec fn digit_char(d: nat) -> char {
    if d == 0 {
        '0'
    } else if d == 1 {
        '1'
    } else if d == 2 {
        '2'
    } else if d == 3 {
        '3'
    } else if d == 4 {
        '4'
    } else if d == 5 {
        '5'
    } else if d == 6 {
        '6'
    } else if d == 7 {
        '7'
    } else if d == 8 {
        '8'
    } else {
        '9'
    }
}

/// `n` written in decimal, without leading zeros.
pub open spec fn decimal_view(n: nat) -> Seq<char>
    decreases n,
{
    if n < 10 {
        seq![digit_char(n)]
    } else {
        decimal_view(n / 10).push(digit_char(n % 10))
    }
}

fn digit(d: u64) -> (r: char)
    requires
        d < 10,
    ensures
        r == digit_char(d as nat),
{
    if d == 0 {
        '0'
    } else if d == 1 {
        '1'
    } else if d == 2 {
        '2'
    } else if d == 3 {
        '3'
    } else if d == 4 {
        '4'
    } else if d == 5 {
        '5'
    } else if d == 6 {
        '6'
    } else if d == 7 {
        '7'
    } else if d == 8 {
        '8'
    } else {
        '9'
    }
}

/// Appends `n` written in decimal.
pub fn push_decimal(buf: &mut Vec<char>, n: u64)
    ensures
        final(buf)@ == old(buf)@ + decimal_view(n as nat),
    decreases n,
{
    if n < 10 {
        buf.push(digit(n));
        assert(decimal_view(n as nat) == seq![digit_char(n as nat)]);
    } else {
        push_decimal(buf, n / 10);
        buf.push(digit(n % 10));
        assert(old(buf)@ + decimal_view(n as nat) =~= old(buf)@ + decimal_view((n / 10) as nat)
            + seq![digit_char((n % 10) as nat)]);
    }
}

/// `n` written in decimal with at least `width` digits, zeros in front.
pub open spec fn padded_view(n: nat, width: nat) -> Seq<char> {
    let d = decimal_view(n);
    if d.len() < width {
        Seq::new((width - d.len()) as nat, |i: int| '0') + d
    } else {
        d
    }
}

/// Appends `n` in decimal with at least `width` digits.
pub fn push_padded(buf: &mut Vec<char>, n: u64, width: usize)
    ensures
        final(buf)@ == old(buf)@ + padded_view(n as nat, width as nat),
{
    let mut digits: Vec<char> = Vec::new();
    push_decimal(&mut digits, n);
    assert(digits@ =~= decimal_view(n as nat));
    let ghost start = buf@;
    let mut k: usize = digits.len();
    while k < width
        invariant
            digits.len() <= k <= width || (k == digits.len() && k >= width),
            buf@ == start + Seq::new((k - digits.len()) as nat, |i: int| '0'),
        decreases width - k,
    {
        buf.push('0');
        assert(buf@ =~= start + Seq::new((k + 1 - digits.len()) as nat, |i: int| '0'));
        k = k + 1;
    }
    let ghost mid = buf@;
    let mut i: usize = 0;
    while i < digits.len()
        invariant
            0 <= i <= digits.len(),
            buf@ == mid + digits@.subrange(0, i as int),
        decreases digits.len() - i,
    {
        buf.push(digits[i]);
        assert(digits@.subrange(0, i + 1) =~= digits@.subrange(0, i as int).push(digits@[i as int]));
        i = i + 1;
    }
    assert(digits@.subrange(0, digits.len() as int) =~= digits@);
    if digits.len() < width {
        assert(buf@ =~= start + padded_view(n as nat, width as nat));
    } else {
        assert(Seq::new((k - digits.len()) as nat, |i: int| '0') =~= Seq::<char>::empty());
        assert(buf@ =~= start + padded_view(n as nat, width as nat));
    }
}

} // verus!
