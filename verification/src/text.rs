//! Building the strings that the library hands out: decimal numbers, joined
//! lists, names with a character taken out.

use vstd::prelude::*;
use vstd::string::StringExecFns;

verus! {

/// The decimal digit for `d`.
pub open spec fn digit(d: nat) -> char {
    if d == 0 {
        '0'
    } else if d == 1 {
        '1'
    } else if d == 2 {
        '2'
    } else if d == 3 {
        '3'
    } else if d == 4 {
        '4'
    } else if d == 5 {
        '5'
    } else if d == 6 {
        '6'
    } else if d == 7 {
        '7'
    } else if d == 8 {
        '8'
    } else {
        '9'
    }
}

/// `n` written in decimal, without leading zeros.
pub open spec fn decimal(n: nat) -> Seq<char>
    decreases n,
{
    if n < 10 {
        seq![digit(n)]
    } else {
        decimal(n / 10).push(digit(n % 10))
    }
}

/// `n` written in decimal with at least two digits: a single digit gets a
/// leading zero.
pub open spec fn decimal_two(n: nat) -> Seq<char> {
    if n < 10 {
        seq!['0', digit(n)]
    } else {
        decimal(n)
    }
}

/// The test that a character is not `c`.
pub open spec fn other_than(c: char) -> spec_fn(char) -> bool {
    |x: char| x != c
}

/// `s` without the occurrences of `c`.
pub open spec fn stripped(s: Seq<char>, c: char) -> Seq<char> {
    s.filter(other_than(c))
}

/// The parts put one after the other with `sep` between neighbours.
pub open spec fn joined(parts: Seq<Seq<char>>, sep: Seq<char>) -> Seq<char>
    decreases parts.len(),
{
    if parts.len() == 0 {
        Seq::empty()
    } else if parts.len() == 1 {
        parts[0]
    } else {
        joined(parts.drop_last(), sep) + sep + parts.last()
    }
}

/// Calls `String::push`, which appends the character to the end of the string.
#[verifier::external_body]
pub(crate) fn push_char(s: &mut String, c: char)
    ensures
        final(s)@ == old(s)@.push(c),
{
    s.push(c);
}

/// The decimal digit for `d`.
pub fn digit_char(d: u64) -> (c: char)
    requires
        d < 10,
    ensures
        c == digit(d as nat),
{
    match d {
        0 => '0',
        1 => '1',
        2 => '2',
        3 => '3',
        4 => '4',
        5 => '5',
        6 => '6',
        7 => '7',
        8 => '8',
        _ => '9',
    }
}

/// Appends `n` in decimal to `s`.
pub fn push_decimal(s: &mut String, n: u64)
    ensures
        final(s)@ == old(s)@ + decimal(n as nat),
    decreases n,
{
    if n >= 10 {
        push_decimal(s, n / 10);
    }
    push_char(s, digit_char(n % 10));
    assert(s@ =~= old(s)@ + decimal(n as nat));
}

/// Appends `n` in decimal to `s`, with a leading zero if it has one digit.
pub fn push_decimal_two(s: &mut String, n: u64)
    ensures
        final(s)@ == old(s)@ + decimal_two(n as nat),
{
    if n < 10 {
        push_char(s, '0');
    }
    push_decimal(s, n);
    assert(s@ =~= old(s)@ + decimal_two(n as nat));
}

/// Appends `t` to `s`, leaving out the occurrences of `c`.
pub fn push_stripped(s: &mut String, t: &str, c: char)
    ensures
        final(s)@ == old(s)@ + stripped(t@, c),
{
    broadcast use vstd::string::group_string_axioms;

    let ghost keep = other_than(c);
    assert(t@.take(0).filter(keep) =~= Seq::<char>::empty()) by {
        assert(t@.take(0) =~= Seq::<char>::empty());
    }
    assert(s@ =~= old(s)@ + t@.take(0).filter(keep));
    for x in it: t.chars()
        invariant
            it.seq() == t@,
            keep == other_than(c),
            s@ == old(s)@ + t@.take(it.index() as int).filter(keep),
    {
        let ghost before = s@;
        let ghost n = it.index() as int;
        if x != c {
            push_char(s, x);
        }
        proof {
            assert(t@.take(n + 1) =~= t@.take(n).push(x));
            Seq::lemma_filter_push(t@.take(n), x, keep);
            assert(s@ =~= old(s)@ + t@.take(n + 1).filter(keep));
        }
    }
    assert(t@.take(t@.len() as int) =~= t@);
}

/// The parts put one after the other with `sep` between neighbours.
pub fn join(parts: &Vec<String>, sep: &str) -> (s: String)
    ensures
        s@ == joined(parts.deep_view(), sep@),
{
    let ghost views = parts.deep_view();
    let mut s = String::new();
    let mut i: usize = 0;
    assert(views.take(0) =~= Seq::<Seq<char>>::empty());
    while i < parts.len()
        invariant
            views == parts.deep_view(),
            i <= parts@.len(),
            s@ == joined(views.take(i as int), sep@),
        decreases parts@.len() - i,
    {
        let ghost before = views.take(i as int);
        let ghost after = views.take(i + 1);
        if i > 0 {
            s.append(sep);
        }
        s.append(parts[i].as_str());
        proof {
            assert(after.drop_last() =~= before);
            assert(after.last() == parts@[i as int]@);
            if i == 0 {
                assert(s@ =~= after[0]);
            }
        }
        i += 1;
    }
    assert(views.take(parts@.len() as int) =~= views);
    s
}

/// A number in decimal consists of digits.
pub proof fn lemma_decimal_digits(n: nat)
    ensures
        decimal(n).len() >= 1,
        forall|i: int|
            0 <= i < decimal(n).len() ==> exists|d: nat| d < 10 && #[trigger] decimal(n)[i] == digit(d),
    decreases n,
{
    if n >= 10 {
        lemma_decimal_digits(n / 10);
        assert forall|i: int| 0 <= i < decimal(n).len() implies exists|d: nat|
            d < 10 && #[trigger] decimal(n)[i] == digit(d) by {
            if i < decimal(n / 10).len() {
                assert(decimal(n)[i] == decimal(n / 10)[i]);
            } else {
                assert(decimal(n)[i] == digit(n % 10));
            }
        }
    } else {
        assert(decimal(n)[0] == digit(n));
    }
}

/// What is left after stripping a character does not hold it.
pub proof fn lemma_stripped_lacks(s: Seq<char>, c: char)
    ensures
        !stripped(s, c).contains(c),
{
    broadcast use vstd::seq_lib::group_filter_ensures;

    if stripped(s, c).contains(c) {
        let i = choose|i: int| 0 <= i < stripped(s, c).len() && stripped(s, c)[i] == c;
        assert(other_than(c)(stripped(s, c)[i]));
    }
}

/// The pieces of `s` between the occurrences of `c`. There is always at
/// least one piece, and there is one more than `c` occurs in `s`.
pub open spec fn pieces(s: Seq<char>, c: char) -> Seq<Seq<char>>
    decreases s.len(),
{
    if s.len() == 0 {
        seq![Seq::empty()]
    } else {
        let before = pieces(s.drop_last(), c);
        if s.last() == c {
            before.push(Seq::empty())
        } else {
            before.drop_last().push(before.last().push(s.last()))
        }
    }
}

/// `parts` split `s` at `c`: no part holds `c`, and the parts joined by `c`
/// give `s`.
pub open spec fn is_split(parts: Seq<Seq<char>>, s: Seq<char>, c: char) -> bool {
    &&& parts.len() >= 1
    &&& forall|i: int| 0 <= i < parts.len() ==> !(#[trigger] parts[i]).contains(c)
    &&& joined(parts, seq![c]) == s
}

/// Appending a character to the last part appends it to the joined parts.
pub proof fn lemma_joined_push_char(parts: Seq<Seq<char>>, last: Seq<char>, sep: Seq<char>, x: char)
    ensures
        joined(parts.push(last.push(x)), sep) == joined(parts.push(last), sep).push(x),
{
    let a = parts.push(last.push(x));
    let b = parts.push(last);
    assert(a.drop_last() =~= parts);
    assert(b.drop_last() =~= parts);
    if parts.len() > 0 {
        assert(joined(a, sep) =~= joined(b, sep).push(x));
    }
}

/// Starting a new, empty part appends the separator to the joined parts.
pub proof fn lemma_joined_push_part(parts: Seq<Seq<char>>, sep: Seq<char>)
    requires
        parts.len() >= 1,
    ensures
        joined(parts.push(Seq::empty()), sep) == joined(parts, sep) + sep,
{
    let a = parts.push(Seq::<char>::empty());
    assert(a.drop_last() =~= parts);
    assert(joined(a, sep) =~= joined(parts, sep) + sep);
}

/// The pieces of a text split the text: none of them holds the separator, and
/// joined by the separator they give the text back.
pub proof fn lemma_pieces_split(s: Seq<char>, c: char)
    ensures
        is_split(pieces(s, c), s, c),
    decreases s.len(),
{
    let sep = seq![c];
    let parts = pieces(s, c);
    if s.len() == 0 {
        assert(parts[0] =~= s);
        assert forall|i: int| 0 <= i < parts.len() implies !(#[trigger] parts[i]).contains(c) by {
            assert(parts[i].len() == 0);
        }
    } else {
        let before = pieces(s.drop_last(), c);
        lemma_pieces_split(s.drop_last(), c);
        let head = before.drop_last();
        let last = before.last();
        assert(before =~= head.push(last));
        if s.last() == c {
            lemma_joined_push_part(before, sep);
            assert(s.drop_last() + sep =~= s);
            assert forall|i: int| 0 <= i < parts.len() implies !(#[trigger] parts[i]).contains(c) by {
                if i < before.len() {
                    assert(parts[i] == before[i]);
                } else {
                    assert(parts[i].len() == 0);
                }
            }
        } else {
            lemma_joined_push_char(head, last, sep, s.last());
            assert(s.drop_last().push(s.last()) =~= s);
            assert forall|i: int| 0 <= i < parts.len() implies !(#[trigger] parts[i]).contains(c) by {
                if i < head.len() {
                    assert(parts[i] == before[i]);
                } else if parts[i].contains(c) {
                    let j = choose|j: int| 0 <= j < parts[i].len() && parts[i][j] == c;
                    if j < last.len() {
                        assert(last[j] == c);
                        assert(before[before.len() - 1].contains(c));
                    }
                }
            }
        }
    }
}

/// A text is split at a character in one way only: two lists of parts that
/// both split it are the same list.
pub proof fn lemma_split_unique(p: Seq<Seq<char>>, q: Seq<Seq<char>>, s: Seq<char>, c: char)
    requires
        is_split(p, s, c),
        is_split(q, s, c),
    ensures
        p == q,
    decreases p.len(),
{
    let sep = seq![c];
    if p.len() == 1 || q.len() == 1 {
        if p.len() >= 2 {
            let a = joined(p.drop_last(), sep);
            assert(s == a + sep + p.last());
            assert(s[a.len() as int] == c);
            assert(q[0].contains(c));
        }
        if q.len() >= 2 {
            let b = joined(q.drop_last(), sep);
            assert(s == b + sep + q.last());
            assert(s[b.len() as int] == c);
            assert(p[0].contains(c));
        }
        assert(p =~= q);
    } else {
        let a = joined(p.drop_last(), sep);
        let b = joined(q.drop_last(), sep);
        let l = p.last();
        let m = q.last();
        assert(s == a + sep + l);
        assert(s == b + sep + m);
        assert(s.len() == a.len() + 1 + l.len());
        assert(s.len() == b.len() + 1 + m.len());
        assert(s[a.len() as int] == c);
        assert(s[b.len() as int] == c);
        if a.len() < b.len() {
            assert(l[b.len() - a.len() - 1] == s[b.len() as int]);
            assert(l.contains(c));
        }
        if b.len() < a.len() {
            assert(m[a.len() - b.len() - 1] == s[a.len() as int]);
            assert(m.contains(c));
        }
        assert(a =~= s.subrange(0, a.len() as int));
        assert(b =~= s.subrange(0, b.len() as int));
        assert(l =~= s.subrange(a.len() as int + 1, s.len() as int));
        assert(m =~= s.subrange(b.len() as int + 1, s.len() as int));
        assert forall|i: int| 0 <= i < p.drop_last().len() implies !(#[trigger] p.drop_last()[i]).contains(
            c,
        ) by {
            assert(p.drop_last()[i] == p[i]);
        }
        assert forall|i: int| 0 <= i < q.drop_last().len() implies !(#[trigger] q.drop_last()[i]).contains(
            c,
        ) by {
            assert(q.drop_last()[i] == q[i]);
        }
        lemma_split_unique(p.drop_last(), q.drop_last(), a, c);
        assert(p =~= p.drop_last().push(l));
        assert(q =~= q.drop_last().push(m));
    }
}

/// The pieces of `s` between the occurrences of `c`.
pub fn split(s: &str, c: char) -> (parts: Vec<String>)
    ensures
        parts.deep_view() == pieces(s@, c),
        is_split(parts.deep_view(), s@, c),
{
    broadcast use vstd::string::group_string_axioms;

    let mut parts: Vec<String> = Vec::new();
    let mut current = String::new();
    assert(parts.deep_view().push(current@) =~= pieces(s@.take(0), c)) by {
        assert(s@.take(0) =~= Seq::<char>::empty());
    }
    for x in it: s.chars()
        invariant
            it.seq() == s@,
            parts.deep_view().push(current@) == pieces(s@.take(it.index() as int), c),
    {
        let ghost n = it.index() as int;
        let ghost done = parts.deep_view();
        let ghost last = current@;
        proof {
            assert(s@.take(n + 1).drop_last() =~= s@.take(n));
            assert(s@.take(n + 1).last() == x);
            assert(done.push(last).drop_last() =~= done);
        }
        if x == c {
            parts.push(current);
            current = String::new();
            assert(parts.deep_view() =~= done.push(last));
        } else {
            push_char(&mut current, x);
        }
    }
    let ghost done = parts.deep_view();
    parts.push(current);
    proof {
        assert(parts.deep_view() =~= done.push(current@));
        assert(s@.take(s@.len() as int) =~= s@);
        lemma_pieces_split(s@, c);
    }
    parts
}

/// `pat` occurs in `s`.
pub open spec fn has_infix(s: Seq<char>, pat: Seq<char>) -> bool {
    exists|i: int| 0 <= i && i + pat.len() <= s.len() && #[trigger] s.subrange(i, i + pat.len()) == pat
}

/// The characters of a text.
pub fn chars_of(s: &str) -> (chars: Vec<char>)
    ensures
        chars@ == s@,
{
    broadcast use vstd::string::group_string_axioms;

    let mut chars: Vec<char> = Vec::new();
    for x in it: s.chars()
        invariant
            it.seq() == s@,
            chars@ == s@.take(it.index() as int),
    {
        chars.push(x);
        assert(s@.take(it.index() + 1) =~= s@.take(it.index() as int).push(x));
    }
    assert(s@.take(s@.len() as int) =~= s@);
    chars
}

/// Whether `pat` occurs in `s`.
pub fn contains_text(s: &str, pat: &str) -> (r: bool)
    ensures
        r == has_infix(s@, pat@),
{
    let text = chars_of(s);
    let word = chars_of(pat);
    let n = text.len();
    let m = word.len();
    if m > n {
        return false;
    }
    let mut i: usize = 0;
    while i <= n - m
        invariant
            n == text@.len(),
            m == word@.len(),
            m <= n,
            i <= n - m + 1,
            text@ == s@,
            word@ == pat@,
            forall|a: int| 0 <= a < i ==> #[trigger] text@.subrange(a, a + m) != word@,
        decreases n - m + 1 - i,
    {
        let mut j: usize = 0;
        while j < m && text[i + j] == word[j]
            invariant
                n == text@.len(),
                m == word@.len(),
                i + m <= n,
                j <= m,
                forall|b: int| 0 <= b < j ==> text@[i + b] == word@[b],
            decreases m - j,
        {
            j += 1;
        }
        if j == m {
            assert(text@.subrange(i as int, i + m) =~= word@);
            return true;
        }
        assert(text@.subrange(i as int, i + m)[j as int] != word@[j as int]);
        i += 1;
    }
    false
}

/// `s` without the carriage return at its end, if it has one there.
pub open spec fn without_cr(s: Seq<char>) -> Seq<char> {
    if s.len() > 0 && s.last() == '\r' {
        s.drop_last()
    } else {
        s
    }
}

/// The lines of a text: the pieces between its line feeds. A line that ends
/// with a line feed loses the carriage return before it, if there is one. The
/// text after the last line feed is a line unless it is empty.
pub open spec fn lines_of(text: Seq<char>) -> Seq<Seq<char>> {
    let parts = pieces(text, '\n');
    let ended = parts.drop_last().map_values(|l: Seq<char>| without_cr(l));
    if parts.last().len() == 0 {
        ended
    } else {
        ended.push(parts.last())
    }
}

/// The lines of a text.
pub fn lines(text: &str) -> (r: Vec<String>)
    ensures
        r.deep_view() == lines_of(text@),
{
    broadcast use vstd::string::group_string_axioms;

    let parts = split(text, '\n');
    let ghost views = parts.deep_view();
    let n = parts.len();
    let mut r: Vec<String> = Vec::new();
    let mut i: usize = 0;
    while i + 1 < n
        invariant
            n == parts@.len(),
            n >= 1,
            views == parts.deep_view(),
            i <= n - 1,
            r@.len() == i,
            forall|j: int| 0 <= j < i ==> (#[trigger] r@[j])@ == without_cr(views[j]),
        decreases n - i,
    {
        let chars = chars_of(parts[i].as_str());
        let m = chars.len();
        let mut line = String::new();
        let keep = if m > 0 && chars[m - 1] == '\r' {
            m - 1
        } else {
            m
        };
        let mut k: usize = 0;
        while k < keep
            invariant
                keep <= chars@.len(),
                k <= keep,
                line@ == chars@.take(k as int),
            decreases keep - k,
        {
            push_char(&mut line, chars[k]);
            assert(chars@.take(k + 1) =~= chars@.take(k as int).push(chars@[k as int]));
            k += 1;
        }
        assert(line@ =~= without_cr(views[i as int])) by {
            assert(views[i as int] == parts@[i as int]@);
            assert(chars@.take(chars@.len() as int) =~= chars@);
            assert(chars@.drop_last() =~= chars@.take(chars@.len() - 1));
        }
        r.push(line);
        i += 1;
    }
    if !parts[n - 1].as_str().is_empty() {
        r.push(parts[n - 1].clone());
    }
    assert(r.deep_view() =~= lines_of(text@)) by {
        assert(views.last() == parts@[n - 1]@);
    }
    r
}

} // verus!
