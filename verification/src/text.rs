//! Text as sequences of characters: searching, trimming, replacing, splitting.
//!
//! Contracts speak of `Seq<char>`, the view of `str` and `String`.

use vstd::prelude::*;

verus! {

/// `String::push` appends the given character.
pub assume_specification[ String::push ](s: &mut String, c: char)
    ensures
        final(s)@ == old(s)@.push(c),
;

/// The characters of a text, in order.
pub fn chars_of(s: &str) -> (r: Vec<char>)
    ensures
        r@ == s@,
{
    let mut out: Vec<char> = Vec::new();
    let n: usize = s.unicode_len();
    let mut it = s.chars();
    assert(s@.skip(0) =~= s@);
    let mut i: usize = 0;
    while i < n
        invariant
            i <= n,
            n == s@.len(),
            vstd::std_specs::iter::IteratorSpec::remaining(&it) == s@.skip(i as int),
            out@ == s@.take(i as int),
        decreases n - i,
    {
        let c = it.next();
        assert(s@.skip(i as int)[0] == s@[i as int]);
        match c {
            Some(ch) => {
                out.push(ch);
            },
            None => {},
        }
        assert(s@.skip(i as int).drop_first() =~= s@.skip(i as int + 1));
        assert(s@.take(i as int + 1) =~= s@.take(i as int).push(s@[i as int]));
        i += 1;
    }
    assert(s@.take(n as int) =~= s@);
    out
}

/// The text made of the characters from `from` up to `to`.
pub fn text_of(v: &Vec<char>, from: usize, to: usize) -> (r: String)
    requires
        from <= to <= v@.len(),
    ensures
        r@ == v@.subrange(from as int, to as int),
{
    let mut out = String::new();
    let mut i: usize = from;
    while i < to
        invariant
            from <= i <= to <= v@.len(),
            out@ == v@.subrange(from as int, i as int),
        decreases to - i,
    {
        out.push(v[i]);
        assert(v@.subrange(from as int, i as int + 1) =~= v@.subrange(from as int, i as int).push(v@[i as int]));
        i += 1;
    }
    out
}

/// The text made of all the characters.
pub fn whole(v: &Vec<char>) -> (r: String)
    ensures
        r@ == v@,
{
    let r = text_of(v, 0, v.len());
    assert(v@.subrange(0, v@.len() as int) =~= v@);
    r
}

/// Whether two texts are the same.
pub fn same(a: &str, b: &str) -> (r: bool)
    ensures
        r == (a@ == b@),
{
    a.to_owned() == b.to_owned()
}

/// One text after the other.
pub fn joined(a: &str, b: &str) -> (r: String)
    ensures
        r@ == a@ + b@,
{
    let mut out = a.to_owned();
    out.append(b);
    out
}

/// Three texts, one after the other.
pub fn joined3(a: &str, b: &str, c: &str) -> (r: String)
    ensures
        r@ == a@ + b@ + c@,
{
    let mut out = a.to_owned();
    out.append(b);
    out.append(c);
    out
}

/// `pat` stands in `s` at position `i`.
pub open spec fn occurs_at(s: Seq<char>, pat: Seq<char>, i: int) -> bool {
    &&& 0 <= i
    &&& i + pat.len() <= s.len()
    &&& s.subrange(i, i + pat.len()) == pat
}

/// `pat` stands somewhere in `s`.
pub open spec fn occurs(s: Seq<char>, pat: Seq<char>) -> bool {
    exists|i: int| occurs_at(s, pat, i)
}

/// `s` begins with `pat`.
pub open spec fn starts(s: Seq<char>, pat: Seq<char>) -> bool {
    occurs_at(s, pat, 0)
}

/// `s` ends with `pat`.
pub open spec fn ends(s: Seq<char>, pat: Seq<char>) -> bool {
    occurs_at(s, pat, s.len() - pat.len())
}

/// The first position, `from` or later, at which `pat` stands in `s`.
pub open spec fn first_at(s: Seq<char>, pat: Seq<char>, from: int) -> Option<int>
    decreases s.len() + 1 - from,
{
    if from > s.len() {
        None
    } else if occurs_at(s, pat, from) {
        Some(from)
    } else {
        first_at(s, pat, from + 1)
    }
}

/// What `first_at` finds is an occurrence with none before it; where it finds
/// nothing there is none.
pub proof fn lemma_first_at(s: Seq<char>, pat: Seq<char>, from: int)
    requires
        0 <= from,
    ensures
        match first_at(s, pat, from) {
            Some(i) => from <= i && occurs_at(s, pat, i) && forall|j: int|
                from <= j < i ==> !occurs_at(s, pat, j),
            None => forall|j: int| from <= j ==> !occurs_at(s, pat, j),
        },
    decreases s.len() + 1 - from,
{
    if from <= s.len() && !occurs_at(s, pat, from) {
        lemma_first_at(s, pat, from + 1);
    }
}

/// Whether `pat` stands in `v` at position `i`.
pub fn stands_at(v: &Vec<char>, pat: &Vec<char>, i: usize) -> (r: bool)
    ensures
        r == occurs_at(v@, pat@, i as int),
{
    let n: usize = v.len();
    if i > n || pat.len() > n - i {
        return false;
    }
    let mut k: usize = 0;
    while k < pat.len()
        invariant
            k <= pat@.len(),
            n == v@.len(),
            i + pat@.len() <= n,
            forall|j: int| 0 <= j < k ==> v@[i + j] == pat@[j],
        decreases pat@.len() - k,
    {
        if v[i + k] != pat[k] {
            assert(v@.subrange(i as int, i + pat@.len())[k as int] == v@[i + k]);
            return false;
        }
        k += 1;
    }
    assert(v@.subrange(i as int, i + pat@.len()) =~= pat@);
    true
}

/// The first position, `from` or later, at which `pat` stands in `v`.
pub fn find_from(v: &Vec<char>, pat: &Vec<char>, from: usize) -> (r: Option<usize>)
    ensures
        r is Some == first_at(v@, pat@, from as int) is Some,
        r is Some ==> first_at(v@, pat@, from as int) == Some(r->0 as int) && from <= r->0
            && r->0 + pat@.len() <= v@.len(),
{
    let mut i: usize = from;
    while i <= v.len()
        invariant
            from <= i,
            i <= v@.len() + 1 || i == from,
            first_at(v@, pat@, from as int) == first_at(v@, pat@, i as int),
        decreases v@.len() + 1 - i,
    {
        if stands_at(v, pat, i) {
            return Some(i);
        }
        if i == v.len() {
            assert(first_at(v@, pat@, i as int + 1) is None);
            return None;
        }
        i += 1;
    }
    None
}

/// Whether `pat` stands somewhere in `s`.
pub fn holds(s: &str, pat: &str) -> (r: bool)
    ensures
        r == occurs(s@, pat@),
{
    let r = find_from(&chars_of(s), &chars_of(pat), 0);
    proof {
        lemma_first_at(s@, pat@, 0);
    }
    match r {
        Some(i) => {
            assert(occurs_at(s@, pat@, i as int));
            true
        },
        None => {
            assert forall|i: int| !occurs_at(s@, pat@, i) by {
                if i < 0 {
                }
            }
            false
        },
    }
}

/// Whether `s` begins with `pat`.
pub fn begins(s: &str, pat: &str) -> (r: bool)
    ensures
        r == starts(s@, pat@),
{
    stands_at(&chars_of(s), &chars_of(pat), 0)
}

/// Whether `s` ends with `pat`.
pub fn finishes(s: &str, pat: &str) -> (r: bool)
    ensures
        r == ends(s@, pat@),
{
    let v = chars_of(s);
    let p = chars_of(pat);
    if p.len() > v.len() {
        false
    } else {
        stands_at(&v, &p, v.len() - p.len())
    }
}

/// `s` with every occurrence of `pat`, taken from the left and without
/// overlap, replaced by `with`.
pub open spec fn replaced(s: Seq<char>, pat: Seq<char>, with: Seq<char>) -> Seq<char>
    decreases s.len(),
{
    if pat.len() == 0 || s.len() == 0 {
        s
    } else if starts(s, pat) {
        with + replaced(s.skip(pat.len() as int), pat, with)
    } else {
        seq![s[0]] + replaced(s.skip(1), pat, with)
    }
}

/// `s` with every occurrence of `pat` replaced by `with`.
pub fn replace_all(s: &str, pat: &str, with: &str) -> (r: String)
    requires
        pat@.len() > 0,
    ensures
        r@ == replaced(s@, pat@, with@),
{
    let v = chars_of(s);
    let p = chars_of(pat);
    let mut out = String::new();
    let mut i: usize = 0;
    assert(v@.skip(0) =~= v@);
    assert(Seq::<char>::empty() + replaced(v@, p@, with@) =~= replaced(v@, p@, with@));
    while i < v.len()
        invariant
            i <= v@.len(),
            p@.len() > 0,
            replaced(v@, p@, with@) == out@ + replaced(v@.skip(i as int), p@, with@),
        decreases v@.len() - i,
    {
        let ghost rest = v@.skip(i as int);
        let ghost before = out@;
        if stands_at(&v, &p, i) {
            assert(rest.subrange(0, p@.len() as int) =~= v@.subrange(i as int, i + p@.len()));
            assert(rest.skip(p@.len() as int) =~= v@.skip(i + p@.len()));
            out.append(with);
            i += p.len();
            assert(before + (with@ + replaced(v@.skip(i as int), p@, with@)) =~= out@
                + replaced(v@.skip(i as int), p@, with@));
        } else {
            assert(i + p@.len() <= v@.len() ==> rest.subrange(0, p@.len() as int) =~= v@.subrange(
                i as int,
                i + p@.len(),
            ));
            assert(rest.skip(1) =~= v@.skip(i + 1));
            out.push(v[i]);
            i += 1;
            assert(before + (seq![rest[0]] + replaced(v@.skip(i as int), p@, with@)) =~= out@
                + replaced(v@.skip(i as int), p@, with@));
        }
    }
    assert(v@.skip(i as int) =~= Seq::<char>::empty());
    assert(out@ + Seq::<char>::empty() =~= out@);
    out
}

/// A text in which the pattern does not occur is left as it is.
pub proof fn lemma_replaced_absent(s: Seq<char>, pat: Seq<char>, with: Seq<char>)
    requires
        !occurs(s, pat),
    ensures
        replaced(s, pat, with) == s,
    decreases s.len(),
{
    if pat.len() > 0 && s.len() > 0 {
        assert(!occurs_at(s, pat, 0));
        assert(!occurs(s.skip(1), pat)) by {
            if occurs(s.skip(1), pat) {
                let i = choose|i: int| occurs_at(s.skip(1), pat, i);
                assert(s.skip(1).subrange(i, i + pat.len()) =~= s.subrange(i + 1, i + 1 + pat.len()));
                assert(occurs_at(s, pat, i + 1));
            }
        }
        lemma_replaced_absent(s.skip(1), pat, with);
        assert(seq![s[0]] + s.skip(1) =~= s);
    }
}

/// The Unicode white space characters.
pub open spec fn is_space(c: char) -> bool {
    let n = c as u32;
    ||| 9 <= n <= 13
    ||| n == 32
    ||| n == 0x85
    ||| n == 0xa0
    ||| n == 0x1680
    ||| 0x2000 <= n <= 0x200a
    ||| n == 0x2028
    ||| n == 0x2029
    ||| n == 0x202f
    ||| n == 0x205f
    ||| n == 0x3000
}

/// Whether a character is white space.
pub fn space(c: char) -> (r: bool)
    ensures
        r == is_space(c),
{
    let n: u32 = c as u32;
    (9 <= n && n <= 13) || n == 32 || n == 0x85 || n == 0xa0 || n == 0x1680 || (0x2000 <= n && n
        <= 0x200a) || n == 0x2028 || n == 0x2029 || n == 0x202f || n == 0x205f || n == 0x3000
}

/// `s` without the white space at its start.
pub open spec fn trimmed_start(s: Seq<char>) -> Seq<char>
    decreases s.len(),
{
    if s.len() > 0 && is_space(s[0]) {
        trimmed_start(s.skip(1))
    } else {
        s
    }
}

/// `s` without the white space at its end.
pub open spec fn trimmed_end(s: Seq<char>) -> Seq<char>
    decreases s.len(),
{
    if s.len() > 0 && is_space(s.last()) {
        trimmed_end(s.drop_last())
    } else {
        s
    }
}

/// `s` without the white space around it.
pub open spec fn trimmed(s: Seq<char>) -> Seq<char> {
    trimmed_end(trimmed_start(s))
}

/// Nothing but white space is in `s`.
pub open spec fn all_space(s: Seq<char>) -> bool {
    forall|i: int| 0 <= i < s.len() ==> is_space(#[trigger] s[i])
}

proof fn lemma_trimmed_start_parts(s: Seq<char>) -> (n: int)
    ensures
        0 <= n <= s.len(),
        trimmed_start(s) == s.skip(n),
        all_space(s.take(n)),
        n < s.len() ==> !is_space(s[n]),
    decreases s.len(),
{
    if s.len() > 0 && is_space(s[0]) {
        let m = lemma_trimmed_start_parts(s.skip(1));
        assert(s.skip(1).skip(m) =~= s.skip(m + 1));
        assert forall|i: int| 0 <= i < m + 1 implies is_space(#[trigger] s.take(m + 1)[i]) by {
            if i > 0 {
                assert(s.skip(1).take(m)[i - 1] == s[i]);
            }
        }
        m + 1
    } else {
        assert(s.skip(0) =~= s);
        0
    }
}

/// Trimming the end of a text leaves a part of its front, with white space alone behind it.
pub proof fn lemma_trimmed_end_parts(s: Seq<char>) -> (n: int)
    ensures
        0 <= n <= s.len(),
        trimmed_end(s) == s.take(n),
        all_space(s.skip(n)),
        n > 0 ==> !is_space(s[n - 1]),
    decreases s.len(),
{
    if s.len() > 0 && is_space(s.last()) {
        let n = lemma_trimmed_end_parts(s.drop_last());
        assert(s.drop_last().take(n) =~= s.take(n));
        assert forall|i: int| 0 <= i < s.len() - n implies is_space(#[trigger] s.skip(n)[i]) by {
            if i < s.len() - n - 1 {
                assert(s.drop_last().skip(n)[i] == s[n + i]);
            }
        }
        n
    } else {
        assert(s.take(s.len() as int) =~= s);
        s.len() as int
    }
}

/// Trimming takes white space off both ends and nothing else: what is left is a part of
/// the text with white space alone around it, and has none at its own ends.
pub proof fn law_trimmed(s: Seq<char>) -> (parts: (int, int))
    ensures
        0 <= parts.0 <= parts.1 <= s.len(),
        trimmed(s) == s.subrange(parts.0, parts.1),
        forall|i: int| 0 <= i < parts.0 ==> is_space(#[trigger] s[i]),
        forall|i: int| parts.1 <= i < s.len() ==> is_space(#[trigger] s[i]),
        parts.0 < parts.1 ==> !is_space(s[parts.0]) && !is_space(s[parts.1 - 1]),
{
    let a = lemma_trimmed_start_parts(s);
    let t = s.skip(a);
    let n = lemma_trimmed_end_parts(t);
    let b = a + n;
    assert(t.take(n) =~= s.subrange(a, b));
    assert forall|i: int| 0 <= i < a implies is_space(#[trigger] s[i]) by {
        assert(s.take(a)[i] == s[i]);
    }
    assert forall|i: int| b <= i < s.len() implies is_space(#[trigger] s[i]) by {
        assert(t.skip(n)[i - b] == s[i]);
    }
    if n > 0 {
        assert(t[n - 1] == s[b - 1]);
    }
    (a, b)
}

/// A text is blank exactly if it holds nothing but white space.
pub proof fn law_blank(s: Seq<char>)
    ensures
        (trimmed(s).len() == 0) == all_space(s),
{
    let parts = law_trimmed(s);
    if parts.0 < parts.1 {
        assert(!is_space(s[parts.0]));
    } else {
        assert forall|i: int| 0 <= i < s.len() implies is_space(#[trigger] s[i]) by {
            assert(i < parts.0 || parts.1 <= i);
        }
    }
}

/// White space in front of a text makes no difference once it is trimmed.
pub proof fn law_space_in_front(front: Seq<char>, s: Seq<char>)
    requires
        all_space(front),
    ensures
        trimmed(front + s) == trimmed(s),
    decreases front.len(),
{
    if front.len() > 0 {
        let rest = front.skip(1);
        assert forall|i: int| 0 <= i < rest.len() implies is_space(#[trigger] rest[i]) by {
            assert(rest[i] == front[i + 1]);
        }
        law_space_in_front(rest, s);
        assert(is_space(front[0]));
        assert((front + s).skip(1) =~= rest + s);
    } else {
        assert(front + s =~= s);
    }
}

/// No white space is at either end of `s`.
pub open spec fn tight(s: Seq<char>) -> bool {
    s.len() > 0 ==> !is_space(s[0]) && !is_space(s.last())
}

/// Trimming a text with white space around it gives the text.
pub proof fn law_trimmed_around(front: Seq<char>, s: Seq<char>, back: Seq<char>)
    requires
        all_space(front),
        all_space(back),
        tight(s),
    ensures
        trimmed(front + s + back) == s,
    decreases back.len(),
{
    if back.len() == 0 {
        assert(front + s + back =~= front + s);
        law_space_in_front(front, s);
    } else {
        let less = back.drop_last();
        assert forall|i: int| 0 <= i < less.len() implies is_space(#[trigger] less[i]) by {
            assert(less[i] == back[i]);
        }
        law_trimmed_around(front, s, less);
        law_space_in_front(front, s + back);
        law_space_in_front(front, s + less);
        assert(front + s + back =~= front + (s + back));
        assert(front + s + less =~= front + (s + less));
        assert(is_space(back.last()));
        if s.len() > 0 {
            let whole = s + back;
            assert(whole[0] == s[0]);
            assert((s + less).len() > 0 && (s + less)[0] == s[0]);
            assert(whole.last() == back.last());
            assert(whole.drop_last() =~= s + less);
        } else {
            assert(s + back =~= back);
            law_blank(back);
            assert(trimmed(back) =~= s);
        }
    }
}

/// `s` without the white space at its start.
pub fn trim_start(s: &str) -> (r: String)
    ensures
        r@ == trimmed_start(s@),
{
    let v = chars_of(s);
    let mut i: usize = 0;
    assert(v@.skip(0) =~= v@);
    while i < v.len() && space(v[i])
        invariant
            i <= v@.len(),
            trimmed_start(v@) == trimmed_start(v@.skip(i as int)),
        decreases v@.len() - i,
    {
        assert(v@.skip(i as int).skip(1) =~= v@.skip(i as int + 1));
        assert(v@.skip(i as int)[0] == v@[i as int]);
        i += 1;
    }
    assert(i < v@.len() ==> v@.skip(i as int)[0] == v@[i as int]);
    assert(v@.subrange(i as int, v@.len() as int) =~= v@.skip(i as int));
    text_of(&v, i, v.len())
}

/// `s` without the white space at its end.
pub fn trim_end(s: &str) -> (r: String)
    ensures
        r@ == trimmed_end(s@),
{
    let v = chars_of(s);
    let mut i: usize = v.len();
    assert(v@.take(i as int) =~= v@);
    while 0 < i && space(v[i - 1])
        invariant
            i <= v@.len(),
            trimmed_end(v@) == trimmed_end(v@.take(i as int)),
        decreases i,
    {
        assert(v@.take(i as int).drop_last() =~= v@.take(i as int - 1));
        assert(v@.take(i as int).last() == v@[i as int - 1]);
        i -= 1;
    }
    assert(i > 0 ==> v@.take(i as int).last() == v@[i as int - 1]);
    assert(v@.subrange(0, i as int) =~= v@.take(i as int));
    text_of(&v, 0, i)
}

/// `s` without the white space around it.
pub fn trim(s: &str) -> (r: String)
    ensures
        r@ == trimmed(s@),
{
    trim_end(&trim_start(s))
}

/// Whether nothing but white space is in `s`.
pub fn blank(s: &str) -> (r: bool)
    ensures
        r == (trimmed(s@).len() == 0),
{
    trim(s).as_str().is_empty()
}

/// How many characters stand before the first `c`; all of them if there is none.
pub open spec fn until(s: Seq<char>, c: char) -> int
    decreases s.len(),
{
    if s.len() == 0 || s[0] == c {
        0
    } else {
        1 + until(s.skip(1), c)
    }
}

/// `until` counts characters other than `c` and stops at a `c` or at the end.
pub proof fn lemma_until(s: Seq<char>, c: char)
    ensures
        0 <= until(s, c) <= s.len(),
        forall|j: int| 0 <= j < until(s, c) ==> s[j] != c,
        until(s, c) < s.len() ==> s[until(s, c)] == c,
    decreases s.len(),
{
    if s.len() > 0 && s[0] != c {
        lemma_until(s.skip(1), c);
        assert forall|j: int| 0 <= j < until(s, c) implies s[j] != c by {
            if j > 0 {
                assert(s[j] == s.skip(1)[j - 1]);
            }
        }
    }
}

/// The position of the first `c` at or after `from`; the end if there is none.
pub fn find_char(v: &Vec<char>, c: char, from: usize) -> (r: usize)
    requires
        from <= v@.len(),
    ensures
        r == from + until(v@.skip(from as int), c),
        from <= r <= v@.len(),
{
    let mut i: usize = from;
    while i < v.len() && v[i] != c
        invariant
            from <= i <= v@.len(),
            from + until(v@.skip(from as int), c) == i + until(v@.skip(i as int), c),
        decreases v@.len() - i,
    {
        assert(v@.skip(i as int).skip(1) =~= v@.skip(i as int + 1));
        assert(v@.skip(i as int)[0] == v@[i as int]);
        i += 1;
    }
    assert(i < v@.len() ==> v@.skip(i as int)[0] == v@[i as int]);
    i
}

/// `s` without a carriage return at its end.
pub open spec fn without_cr(s: Seq<char>) -> Seq<char> {
    if s.len() > 0 && s.last() == '\r' {
        s.drop_last()
    } else {
        s
    }
}

/// The lines of `s`. A line feed, with a carriage return before it or not, ends
/// a line; the last line need not be ended.
pub open spec fn lines_of(s: Seq<char>) -> Seq<Seq<char>>
    decreases s.len(),
{
    if s.len() == 0 {
        Seq::empty()
    } else {
        let n = until(s, '\n');
        if 0 <= n < s.len() {
            seq![without_cr(s.take(n))] + lines_of(s.skip(n + 1))
        } else {
            seq![s]
        }
    }
}

/// A text is its lines, one after the other: up to the first line feed the first line,
/// without a carriage return before it, then the lines of the rest. A last line that is
/// not ended is a line too; an empty text has none.
pub proof fn law_lines(first: Seq<char>, rest: Seq<char>)
    requires
        !first.contains('\n'),
    ensures
        lines_of(first + seq!['\n'] + rest) == seq![without_cr(first)] + lines_of(rest),
        first.len() > 0 ==> lines_of(first) == seq![first],
        lines_of(Seq::<char>::empty()).len() == 0,
{
    let all = first + seq!['\n'] + rest;
    let n = first.len() as int;
    assert(all[n] == '\n');
    assert forall|k: int| 0 <= k < n implies all[k] != '\n' && first[k] != '\n' by {
        assert(first.contains(first[k]));
    }
    lemma_until(all, '\n');
    lemma_until(first, '\n');
    assert(until(all, '\n') == n);
    assert(until(first, '\n') == n);
    assert(all.take(n) =~= first);
    assert(all.skip(n + 1) =~= rest);
    assert(first.take(n) =~= first);
}

/// The texts of a list of strings.
pub open spec fn views(v: Seq<String>) -> Seq<Seq<char>> {
    v.map_values(|x: String| x@)
}

/// Whether `name` is one of the texts.
pub fn listed(names: &Vec<String>, name: &str) -> (r: bool)
    ensures
        r == views(names@).contains(name@),
{
    let mut i: usize = 0;
    while i < names.len()
        invariant
            i <= names@.len(),
            forall|j: int| 0 <= j < i ==> names@[j]@ != name@,
        decreases names@.len() - i,
    {
        if same(names[i].as_str(), name) {
            assert(views(names@)[i as int] == name@);
            return true;
        }
        i += 1;
    }
    assert(forall|j: int| 0 <= j < views(names@).len() ==> views(names@)[j] != name@);
    false
}

/// The lines of `s`.
pub fn lines(s: &str) -> (r: Vec<String>)
    ensures
        views(r@) == lines_of(s@),
{
    let v = chars_of(s);
    let mut out: Vec<String> = Vec::new();
    let mut i: usize = 0;
    assert(v@.skip(0) =~= v@);
    assert(views(out@) + lines_of(v@) =~= lines_of(v@));
    while i < v.len()
        invariant
            i <= v@.len(),
            views(out@) + lines_of(v@.skip(i as int)) == lines_of(v@),
        decreases v@.len() - i,
    {
        let ghost rest = v@.skip(i as int);
        let n: usize = find_char(&v, '\n', i);
        let ghost before = out@;
        if n < v.len() {
            let mut e: usize = n;
            if i < n && v[n - 1] == '\r' {
                e = n - 1;
            }
            assert(rest.take(n - i) =~= v@.subrange(i as int, n as int));
            assert(without_cr(rest.take(n - i)) =~= v@.subrange(i as int, e as int));
            assert(rest.skip(n - i + 1) =~= v@.skip(n as int + 1));
            out.push(text_of(&v, i, e));
            assert(views(out@) =~= views(before) + seq![v@.subrange(i as int, e as int)]);
            assert(views(before) + (seq![v@.subrange(i as int, e as int)] + lines_of(
                v@.skip(n as int + 1),
            )) =~= views(out@) + lines_of(v@.skip(n as int + 1)));
            i = n + 1;
        } else {
            assert(rest =~= v@.subrange(i as int, n as int));
            out.push(text_of(&v, i, n));
            assert(views(out@) =~= views(before) + seq![rest]);
            i = n;
            assert(v@.skip(i as int) =~= Seq::<char>::empty());
            assert(views(out@) + lines_of(v@.skip(i as int)) =~= views(before) + seq![rest]);
        }
    }
    assert(v@.skip(i as int) =~= Seq::<char>::empty());
    assert(views(out@) + lines_of(v@.skip(i as int)) =~= views(out@));
    out
}

/// The texts of `parts`, with `sep` between them.
pub open spec fn joined_by(parts: Seq<Seq<char>>, sep: Seq<char>) -> Seq<char>
    decreases parts.len(),
{
    if parts.len() == 0 {
        Seq::empty()
    } else if parts.len() == 1 {
        parts[0]
    } else {
        joined_by(parts.drop_last(), sep) + sep + parts.last()
    }
}

/// The texts of `parts`, with `sep` between them.
pub fn join(parts: &Vec<String>, sep: &str) -> (r: String)
    ensures
        r@ == joined_by(views(parts@), sep@),
{
    let mut out = String::new();
    let mut i: usize = 0;
    while i < parts.len()
        invariant
            i <= parts@.len(),
            out@ == joined_by(views(parts@.take(i as int)), sep@),
        decreases parts@.len() - i,
    {
        assert(views(parts@.take(i as int + 1)).drop_last() =~= views(parts@.take(i as int)));
        if i > 0 {
            out.append(sep);
        }
        out.append(parts[i].as_str());
        assert(i == 0 ==> out@ =~= parts@[0]@);
        i += 1;
    }
    assert(parts@.take(i as int) =~= parts@);
    out
}

/// The first `n` characters of `s`, all of them if it has no more.
pub open spec fn taken(s: Seq<char>, n: int) -> Seq<char> {
    if n < s.len() {
        s.take(n)
    } else {
        s
    }
}

/// The first `n` characters of `s`.
pub fn take(s: &str, n: usize) -> (r: String)
    ensures
        r@ == taken(s@, n as int),
{
    let v = chars_of(s);
    if n < v.len() {
        assert(v@.subrange(0, n as int) =~= v@.take(n as int));
        text_of(&v, 0, n)
    } else {
        s.to_owned()
    }
}

/// The decimal digit `d`.
pub open spec fn digit(d: nat) -> char {
    ('0' as u32 + d) as char
}

/// `n` in decimal.
pub open spec fn decimal_of(n: nat) -> Seq<char>
    decreases n,
{
    if n < 10 {
        seq![digit(n)]
    } else {
        decimal_of(n / 10).push(digit(n % 10))
    }
}

fn digit_char(d: u64) -> (r: char)
    requires
        d < 10,
    ensures
        r == digit(d as nat),
{
    if d == 0 { '0' }
    else if d == 1 { '1' }
    else if d == 2 { '2' }
    else if d == 3 { '3' }
    else if d == 4 { '4' }
    else if d == 5 { '5' }
    else if d == 6 { '6' }
    else if d == 7 { '7' }
    else if d == 8 { '8' }
    else { '9' }
}

/// `n` in decimal.
pub fn decimal(n: u64) -> (r: String)
    ensures
        r@ == decimal_of(n as nat),
    decreases n,
{
    let mut out = if n < 10 { String::new() } else { decimal(n / 10) };
    out.push(digit_char(n % 10));
    assert(n < 10 ==> out@ =~= seq![digit(n as nat)]);
    out
}

/// An ASCII letter in lower case; any other character as it is.
pub open spec fn lower_char(c: char) -> char {
    if 'A' <= c && c <= 'Z' {
        (c as u32 + 32) as char
    } else {
        c
    }
}

/// `s` with its ASCII letters in lower case.
pub open spec fn ascii_lower(s: Seq<char>) -> Seq<char> {
    s.map_values(|c: char| lower_char(c))
}

/// Whether two characters differ at most in ASCII case.
fn alike_char(a: char, b: char) -> (r: bool)
    ensures
        r == (lower_char(a) == lower_char(b)),
{
    let x: u32 = if 'A' <= a && a <= 'Z' { a as u32 + 32 } else { a as u32 };
    let y: u32 = if 'A' <= b && b <= 'Z' { b as u32 + 32 } else { b as u32 };
    x == y
}

/// Whether two texts differ at most in ASCII case.
pub fn alike(a: &str, b: &str) -> (r: bool)
    ensures
        r == (ascii_lower(a@) == ascii_lower(b@)),
{
    let x = chars_of(a);
    let y = chars_of(b);
    if x.len() != y.len() {
        assert(ascii_lower(a@).len() != ascii_lower(b@).len());
        return false;
    }
    let mut i: usize = 0;
    while i < x.len()
        invariant
            i <= x@.len(),
            x@ == a@,
            y@ == b@,
            x@.len() == y@.len(),
            forall|j: int| 0 <= j < i ==> lower_char(x@[j]) == lower_char(y@[j]),
        decreases x@.len() - i,
    {
        if !alike_char(x[i], y[i]) {
            assert(ascii_lower(a@)[i as int] != ascii_lower(b@)[i as int]);
            return false;
        }
        i += 1;
    }
    assert(ascii_lower(a@) =~= ascii_lower(b@));
    true
}

/// What `str::to_lowercase` makes of a text.
pub uninterp spec fn lowered(s: Seq<char>) -> Seq<char>;

/// `str::to_lowercase`: the lower case equivalent of `s` by the Unicode rules.
#[verifier::external_body]
pub(crate) fn lowercase(s: &str) -> (r: String)
    ensures
        r@ == lowered(s@),
{
    s.to_lowercase()
}

/// What `String::from_utf8_lossy` makes of bytes.
pub uninterp spec fn decoded(bytes: Seq<u8>) -> Seq<char>;

/// `String::from_utf8_lossy`: the text that is written in UTF-8; what is not UTF-8
/// comes out as replacement characters. The result depends on the bytes alone.
#[verifier::external_body]
pub(crate) fn decode(bytes: &Vec<u8>) -> (r: String)
    ensures
        r@ == decoded(bytes@),
        vstd::utf8::valid_utf8(bytes@) ==> r@ == vstd::utf8::decode_utf8(bytes@),
{
    String::from_utf8_lossy(bytes).into_owned()
}

/// `String::from_utf8`: the text that is written in UTF-8, `None` where the bytes
/// are not UTF-8.
#[verifier::external_body]
pub(crate) fn decode_strictly(bytes: Vec<u8>) -> (r: Option<String>)
    ensures
        match r {
            Some(t) => vstd::utf8::valid_utf8(bytes@) && t@ == vstd::utf8::decode_utf8(bytes@),
            None => !vstd::utf8::valid_utf8(bytes@),
        },
{
    String::from_utf8(bytes).ok()
}

/// `a` comes before `b`, or is `b`, in the order of their characters.
pub open spec fn not_after(a: Seq<char>, b: Seq<char>) -> bool
    decreases a.len(),
{
    if a.len() == 0 {
        true
    } else if b.len() == 0 {
        false
    } else if a[0] != b[0] {
        a[0] < b[0]
    } else {
        not_after(a.skip(1), b.skip(1))
    }
}

/// Of two texts, one does not come after the other.
pub proof fn lemma_order_total(a: Seq<char>, b: Seq<char>)
    ensures
        not_after(a, b) || not_after(b, a),
    decreases a.len(),
{
    if a.len() > 0 && b.len() > 0 && a[0] == b[0] {
        lemma_order_total(a.skip(1), b.skip(1));
    }
}

/// The order carries over.
pub proof fn lemma_order_transitive(a: Seq<char>, b: Seq<char>, c: Seq<char>)
    requires
        not_after(a, b),
        not_after(b, c),
    ensures
        not_after(a, c),
    decreases a.len(),
{
    if a.len() > 0 && b.len() > 0 && c.len() > 0 && a[0] == b[0] && b[0] == c[0] {
        lemma_order_transitive(a.skip(1), b.skip(1), c.skip(1));
    }
}

/// Whether `a` comes before `b`, or is `b`.
pub fn ordered(a: &Vec<char>, b: &Vec<char>) -> (r: bool)
    ensures
        r == not_after(a@, b@),
{
    let mut i: usize = 0;
    assert(a@.skip(0) =~= a@);
    assert(b@.skip(0) =~= b@);
    while i < a.len() && i < b.len() && a[i] == b[i]
        invariant
            i <= a@.len(),
            i <= b@.len(),
            not_after(a@, b@) == not_after(a@.skip(i as int), b@.skip(i as int)),
        decreases a@.len() - i,
    {
        assert(a@.skip(i as int)[0] == a@[i as int]);
        assert(b@.skip(i as int)[0] == b@[i as int]);
        assert(a@.skip(i as int).skip(1) =~= a@.skip(i as int + 1));
        assert(b@.skip(i as int).skip(1) =~= b@.skip(i as int + 1));
        i += 1;
    }
    assert(i < a@.len() ==> a@.skip(i as int)[0] == a@[i as int]);
    assert(i < b@.len() ==> b@.skip(i as int)[0] == b@[i as int]);
    if i == a.len() {
        true
    } else if i == b.len() {
        false
    } else {
        a[i] < b[i]
    }
}

/// `s` without the leading characters that are in `set`.
pub open spec fn stripped_start(s: Seq<char>, set: Seq<char>) -> Seq<char>
    decreases s.len(),
{
    if s.len() > 0 && set.contains(s[0]) {
        stripped_start(s.skip(1), set)
    } else {
        s
    }
}

/// `s` without the trailing characters that are in `set`.
pub open spec fn stripped_end(s: Seq<char>, set: Seq<char>) -> Seq<char>
    decreases s.len(),
{
    if s.len() > 0 && set.contains(s.last()) {
        stripped_end(s.drop_last(), set)
    } else {
        s
    }
}

/// Every character of `s` is in `set`.
pub open spec fn all_in(s: Seq<char>, set: Seq<char>) -> bool {
    forall|i: int| 0 <= i < s.len() ==> set.contains(#[trigger] s[i])
}

/// Stripping characters off the start leaves what begins with another one.
pub proof fn law_stripped_start(front: Seq<char>, s: Seq<char>, set: Seq<char>)
    requires
        all_in(front, set),
        s.len() > 0 ==> !set.contains(s[0]),
    ensures
        stripped_start(front + s, set) == s,
    decreases front.len(),
{
    if front.len() > 0 {
        let rest = front.skip(1);
        assert forall|i: int| 0 <= i < rest.len() implies set.contains(#[trigger] rest[i]) by {
            assert(rest[i] == front[i + 1]);
        }
        law_stripped_start(rest, s, set);
        assert(set.contains(front[0]));
        assert((front + s)[0] == front[0]);
        assert((front + s).skip(1) =~= rest + s);
    } else {
        assert(front + s =~= s);
    }
}

proof fn lemma_stripped_end(s: Seq<char>, back: Seq<char>, set: Seq<char>)
    requires
        all_in(back, set),
        s.len() > 0 ==> !set.contains(s.last()),
    ensures
        stripped_end(s + back, set) == s,
    decreases back.len(),
{
    if back.len() > 0 {
        let less = back.drop_last();
        assert forall|i: int| 0 <= i < less.len() implies set.contains(#[trigger] less[i]) by {
            assert(less[i] == back[i]);
        }
        lemma_stripped_end(s, less, set);
        assert(set.contains(back[back.len() - 1]));
        assert((s + back).last() == back.last());
        assert((s + back).drop_last() =~= s + less);
    } else {
        assert(s + back =~= s);
    }
}

/// Stripping characters off both ends leaves what begins and ends with others.
pub proof fn law_stripped_around(
    front: Seq<char>,
    s: Seq<char>,
    back: Seq<char>,
    set: Seq<char>,
)
    requires
        all_in(front, set),
        all_in(back, set),
        s.len() > 0,
        !set.contains(s[0]),
        !set.contains(s.last()),
    ensures
        stripped(front + s + back, set) == s,
{
    assert(front + s + back =~= front + (s + back));
    assert((s + back)[0] == s[0]);
    law_stripped_start(front, s + back, set);
    lemma_stripped_end(s, back, set);
}

/// `s` without the characters around it that are in `set`.
pub open spec fn stripped(s: Seq<char>, set: Seq<char>) -> Seq<char> {
    stripped_end(stripped_start(s, set), set)
}

fn in_set(set: &Vec<char>, c: char) -> (r: bool)
    ensures
        r == set@.contains(c),
{
    let mut i: usize = 0;
    while i < set.len()
        invariant
            i <= set@.len(),
            forall|j: int| 0 <= j < i ==> set@[j] != c,
        decreases set@.len() - i,
    {
        if set[i] == c {
            assert(set@[i as int] == c);
            return true;
        }
        i += 1;
    }
    false
}

/// `s` without the leading characters that are in `set`.
pub fn strip_start(s: &str, set: &str) -> (r: String)
    ensures
        r@ == stripped_start(s@, set@),
{
    let v = chars_of(s);
    let chars = chars_of(set);
    let mut i: usize = 0;
    assert(v@.skip(0) =~= v@);
    while i < v.len() && in_set(&chars, v[i])
        invariant
            i <= v@.len(),
            chars@ == set@,
            stripped_start(v@, set@) == stripped_start(v@.skip(i as int), set@),
        decreases v@.len() - i,
    {
        assert(v@.skip(i as int).skip(1) =~= v@.skip(i as int + 1));
        assert(v@.skip(i as int)[0] == v@[i as int]);
        i += 1;
    }
    assert(i < v@.len() ==> v@.skip(i as int)[0] == v@[i as int]);
    assert(v@.subrange(i as int, v@.len() as int) =~= v@.skip(i as int));
    text_of(&v, i, v.len())
}

/// `s` without the trailing characters that are in `set`.
pub fn strip_end(s: &str, set: &str) -> (r: String)
    ensures
        r@ == stripped_end(s@, set@),
{
    let v = chars_of(s);
    let chars = chars_of(set);
    let mut i: usize = v.len();
    assert(v@.take(i as int) =~= v@);
    while 0 < i && in_set(&chars, v[i - 1])
        invariant
            i <= v@.len(),
            chars@ == set@,
            stripped_end(v@, set@) == stripped_end(v@.take(i as int), set@),
        decreases i,
    {
        assert(v@.take(i as int).drop_last() =~= v@.take(i as int - 1));
        assert(v@.take(i as int).last() == v@[i as int - 1]);
        i -= 1;
    }
    assert(i > 0 ==> v@.take(i as int).last() == v@[i as int - 1]);
    assert(v@.subrange(0, i as int) =~= v@.take(i as int));
    text_of(&v, 0, i)
}

/// `s` without the characters around it that are in `set`.
pub fn strip(s: &str, set: &str) -> (r: String)
    ensures
        r@ == stripped(s@, set@),
{
    strip_end(strip_start(s, set).as_str(), set)
}

/// What follows `prefix` in `s`, where `s` begins with it.
pub open spec fn after_prefix(s: Seq<char>, prefix: Seq<char>) -> Option<Seq<char>> {
    if starts(s, prefix) {
        Some(s.skip(prefix.len() as int))
    } else {
        None
    }
}

/// What follows `prefix` in `s`, where `s` begins with it.
pub fn strip_prefix(s: &str, prefix: &str) -> (r: Option<String>)
    ensures
        match r {
            Some(t) => after_prefix(s@, prefix@) == Some(t@),
            None => after_prefix(s@, prefix@) is None,
        },
{
    let v = chars_of(s);
    let p = chars_of(prefix);
    if stands_at(&v, &p, 0) {
        assert(v@.subrange(p@.len() as int, v@.len() as int) =~= v@.skip(p@.len() as int));
        Some(text_of(&v, p.len(), v.len()))
    } else {
        None
    }
}

proof fn lemma_decimal_value(n: nat)
    ensures
        decimal_of(n).len() > 0,
        decimal_of(n).last() == digit(n % 10),
        n >= 10 ==> decimal_of(n).len() > 1 && decimal_of(n).drop_last() == decimal_of(n / 10),
        n < 10 ==> decimal_of(n).len() == 1,
    decreases n,
{
    if n >= 10 {
        lemma_decimal_value(n / 10);
        assert(decimal_of(n).drop_last() =~= decimal_of(n / 10));
    }
}

/// Different numbers are written differently.
pub proof fn lemma_decimal_injective(a: nat, b: nat)
    requires
        decimal_of(a) == decimal_of(b),
    ensures
        a == b,
    decreases a,
{
    lemma_decimal_value(a);
    lemma_decimal_value(b);
    assert(digit(a % 10) as u32 == '0' as u32 + a % 10);
    assert(digit(b % 10) as u32 == '0' as u32 + b % 10);
    assert(a % 10 == b % 10);
    if a >= 10 && b >= 10 {
        lemma_decimal_injective(a / 10, b / 10);
    }
}

/// A decimal digit.
pub open spec fn is_digit(c: char) -> bool {
    '0' <= c && c <= '9'
}

/// The number that decimal digits write.
pub open spec fn value_of(digits: Seq<char>) -> nat
    decreases digits.len(),
{
    if digits.len() == 0 {
        0
    } else {
        value_of(digits.drop_last()) * 10 + (digits.last() as u32 - '0' as u32) as nat
    }
}

/// Decimal digits, at least one, and nothing else.
pub open spec fn all_digits(s: Seq<char>) -> bool {
    s.len() > 0 && forall|i: int| 0 <= i < s.len() ==> is_digit(#[trigger] s[i])
}

/// The number that a text writes in decimal, with or without a plus sign,
/// where it is no larger than `max`.
pub open spec fn number_in(s: Seq<char>, max: nat) -> Option<nat> {
    let digits = if s.len() > 0 && s[0] == '+' {
        s.skip(1)
    } else {
        s
    };
    if all_digits(digits) && value_of(digits) <= max {
        Some(value_of(digits))
    } else {
        None
    }
}

proof fn lemma_value_grows(s: Seq<char>, i: int)
    requires
        0 <= i <= s.len(),
        all_digits(s),
    ensures
        value_of(s.take(i)) <= value_of(s),
    decreases s.len() - i,
{
    if i < s.len() {
        let next = s.take(i + 1);
        assert(next.drop_last() =~= s.take(i));
        assert(next.last() == s[i]);
        assert(is_digit(s[i]));
        assert(value_of(s.take(i)) <= value_of(next));
        lemma_value_grows(s, i + 1);
    } else {
        assert(s.take(i) =~= s);
    }
}

/// The number that a text writes in decimal, where it fits.
pub fn parse_u32(s: &str) -> (r: Option<u32>)
    ensures
        match r {
            Some(n) => number_in(s@, u32::MAX as nat) == Some(n as nat),
            None => number_in(s@, u32::MAX as nat) is None,
        },
{
    let v = chars_of(s);
    let start: usize = if v.len() > 0 && v[0] == '+' {
        1
    } else {
        0
    };
    let ghost digits = if s@.len() > 0 && s@[0] == '+' {
        s@.skip(1)
    } else {
        s@
    };
    assert(digits =~= v@.skip(start as int));
    let n: usize = v.len();
    if start == n {
        return None;
    }
    let mut value: u64 = 0;
    let mut i: usize = start;
    while i < n
        invariant
            start <= i <= n,
            n == v@.len(),
            start < n,
            v@ == s@,
            digits == v@.skip(start as int),
            digits == (if s@.len() > 0 && s@[0] == '+' {
                s@.skip(1)
            } else {
                s@
            }),
            forall|k: int| 0 <= k < i - start ==> is_digit(#[trigger] digits[k]),
            value == value_of(digits.take(i - start)),
            value <= u32::MAX,
        decreases n - i,
    {
        let c = v[i];
        assert(digits[i - start] == c);
        if !('0' <= c && c <= '9') {
            return None;
        }
        let ghost next = digits.take(i - start + 1);
        assert(next.drop_last() =~= digits.take(i - start));
        assert(next.last() == c);
        value = value * 10 + (c as u32 - '0' as u32) as u64;
        assert(value == value_of(next));
        if value > u32::MAX as u64 {
            proof {
                if all_digits(digits) {
                    lemma_value_grows(digits, i - start + 1);
                }
            }
            return None;
        }
        i += 1;
    }
    assert(digits.take(n - start) =~= digits);
    Some(value as u32)
}

/// What is in front of the first occurrence of a pattern is kept, the occurrence gives way
/// to the new text, and what follows is treated the same; a text without the pattern is
/// kept as it is.
pub proof fn law_replaced(front: Seq<char>, pat: Seq<char>, with: Seq<char>, rest: Seq<char>)
    requires
        pat.len() > 0,
        forall|j: int| 0 <= j < front.len() ==> !occurs_at(front + pat + rest, pat, j),
    ensures
        replaced(front + pat + rest, pat, with) == front + with + replaced(rest, pat, with),
        !occurs(rest, pat) ==> replaced(rest, pat, with) == rest,
    decreases front.len(),
{
    if !occurs(rest, pat) {
        lemma_replaced_absent(rest, pat, with);
    }
    let all = front + pat + rest;
    if front.len() == 0 {
        assert(all.subrange(0, pat.len() as int) =~= pat);
        assert(all.skip(pat.len() as int) =~= rest);
        assert(front + with + replaced(rest, pat, with) =~= with + replaced(rest, pat, with));
    } else {
        let less = front.skip(1);
        assert(all.skip(1) =~= less + pat + rest);
        assert(!occurs_at(all, pat, 0));
        assert forall|j: int| 0 <= j < less.len() implies !occurs_at(less + pat + rest, pat, j) by {
            if occurs_at(less + pat + rest, pat, j) {
                assert(all.subrange(j + 1, j + 1 + pat.len()) =~= (less + pat + rest).subrange(
                    j,
                    j + pat.len(),
                ));
                assert(occurs_at(all, pat, j + 1));
            }
        }
        law_replaced(less, pat, with, rest);
        assert(seq![front[0]] + (less + with + replaced(rest, pat, with)) =~= front + with
            + replaced(rest, pat, with));
    }
}

/// A text in which the first character of a pattern does not occur is kept, and the rest
/// treated as if it stood alone.
pub proof fn law_replaced_behind(x: Seq<char>, y: Seq<char>, pat: Seq<char>, with: Seq<char>)
    requires
        pat.len() > 0,
        !x.contains(pat[0]),
    ensures
        replaced(x + y, pat, with) == x + replaced(y, pat, with),
    decreases x.len(),
{
    if x.len() == 0 {
        assert(x + y =~= y);
        assert(x + replaced(y, pat, with) =~= replaced(y, pat, with));
    } else {
        let less = x.skip(1);
        if less.contains(pat[0]) {
            let k = choose|k: int| 0 <= k < less.len() && less[k] == pat[0];
            assert(x[k + 1] == pat[0]);
        }
        law_replaced_behind(less, y, pat, with);
        assert((x + y).skip(1) =~= less + y);
        if starts(x + y, pat) {
            assert((x + y).subrange(0, pat.len() as int)[0] == x[0]);
            assert(x.contains(x[0]));
        }
        assert(seq![x[0]] + (less + replaced(y, pat, with)) =~= x + replaced(y, pat, with));
    }
}

/// Texts are joined with the separator between each two of them and nowhere else.
pub proof fn law_joined(parts: Seq<Seq<char>>, last: Seq<char>, sep: Seq<char>)
    ensures
        joined_by(Seq::<Seq<char>>::empty(), sep).len() == 0,
        joined_by(seq![last], sep) == last,
        parts.len() > 0 ==> joined_by(parts.push(last), sep) == joined_by(parts, sep) + sep + last,
{
    assert(parts.push(last).drop_last() =~= parts);
}

/// A number in decimal reads back as itself; it has digits alone, and no zero in front
/// unless it is zero.
pub proof fn law_decimal(n: nat)
    ensures
        value_of(decimal_of(n)) == n,
        all_digits(decimal_of(n)),
        n > 0 ==> decimal_of(n)[0] != '0',
        forall|max: nat| n <= max ==> #[trigger] number_in(decimal_of(n), max) == Some(n),
        forall|max: nat| n > max ==> #[trigger] number_in(decimal_of(n), max) is None,
    decreases n,
{
    lemma_decimal_value(n);
    let d = decimal_of(n);
    assert(digit(n % 10) as u32 == '0' as u32 + n % 10);
    if n >= 10 {
        law_decimal(n / 10);
        let front = d.drop_last();
        assert(d[0] == front[0]);
        assert forall|i: int| 0 <= i < d.len() implies is_digit(#[trigger] d[i]) by {
            if i < d.len() - 1 {
                assert(d[i] == front[i]);
            }
        }
    } else {
        assert(d.drop_last() =~= Seq::empty());
        assert(value_of(d.drop_last()) == 0);
        assert(d.last() == d[0]);
    }
    assert(is_digit(d[0]));
}

/// What follows a prefix is found exactly where a text begins with it.
pub proof fn law_after_prefix(prefix: Seq<char>, rest: Seq<char>, s: Seq<char>)
    ensures
        after_prefix(prefix + rest, prefix) == Some(rest),
        after_prefix(s, prefix) matches Some(r) ==> s == prefix + r,
{
    assert((prefix + rest).subrange(0, prefix.len() as int) =~= prefix);
    assert((prefix + rest).skip(prefix.len() as int) =~= rest);
    if starts(s, prefix) {
        assert(s =~= s.subrange(0, prefix.len() as int) + s.skip(prefix.len() as int));
    }
}

/// Texts are ordered by the first character in which they differ; a text comes after its
/// own beginnings.
pub proof fn law_order(common: Seq<char>, a: Seq<char>, b: Seq<char>)
    ensures
        a.len() > 0 && b.len() > 0 && a[0] < b[0] ==> not_after(common + a, common + b)
            && !not_after(common + b, common + a),
        not_after(common, common + b),
        b.len() > 0 ==> !not_after(common + b, common),
    decreases common.len(),
{
    if common.len() > 0 {
        law_order(common.skip(1), a, b);
        assert((common + a).skip(1) =~= common.skip(1) + a);
        assert((common + b).skip(1) =~= common.skip(1) + b);
    } else {
        assert(common + a =~= a);
        assert(common + b =~= b);
    }
}

/// Texts differ at most in ASCII case exactly if they are of one length and each letter is
/// the other's, large or small.
pub proof fn law_ascii_lower(a: Seq<char>, b: Seq<char>)
    ensures
        ascii_lower(a) == ascii_lower(b) <==> a.len() == b.len() && forall|i: int|
            0 <= i < a.len() ==> {
                ||| (#[trigger] a[i]) == b[i]
                ||| 'A' <= a[i] <= 'Z' && b[i] as u32 == a[i] as u32 + 32
                ||| 'A' <= b[i] <= 'Z' && a[i] as u32 == b[i] as u32 + 32
            },
{
    let x = ascii_lower(a);
    let y = ascii_lower(b);
    if x == y {
        assert(x.len() == y.len());
        assert forall|i: int| 0 <= i < a.len() implies {
            ||| (#[trigger] a[i]) == b[i]
            ||| 'A' <= a[i] <= 'Z' && b[i] as u32 == a[i] as u32 + 32
            ||| 'A' <= b[i] <= 'Z' && a[i] as u32 == b[i] as u32 + 32
        } by {
            assert(x[i] == y[i]);
            assert(lower_char(a[i]) as u32 == lower_char(b[i]) as u32);
        }
    } else if a.len() == b.len() && forall|i: int|
        0 <= i < a.len() ==> {
            ||| (#[trigger] a[i]) == b[i]
            ||| 'A' <= a[i] <= 'Z' && b[i] as u32 == a[i] as u32 + 32
            ||| 'A' <= b[i] <= 'Z' && a[i] as u32 == b[i] as u32 + 32
        } {
        assert forall|i: int| 0 <= i < x.len() implies x[i] == y[i] by {
            let c = a[i];
            let d = b[i];
            assert(lower_char(c) as u32 == lower_char(d) as u32);
        }
        assert(x =~= y);
    }
}

/// A text has another in it exactly if it is something, the other, and something more; it
/// begins with it if the first is nothing, and ends with it if the last is.
pub proof fn law_occurs(front: Seq<char>, pat: Seq<char>, rest: Seq<char>, s: Seq<char>)
    ensures
        occurs(front + pat + rest, pat),
        starts(pat + rest, pat),
        ends(front + pat, pat),
        occurs(s, pat) ==> exists|a: Seq<char>, b: Seq<char>| s == #[trigger] (a + pat + b),
        starts(s, pat) ==> exists|b: Seq<char>| s == #[trigger] (pat + b),
        ends(s, pat) ==> exists|a: Seq<char>| s == #[trigger] (a + pat),
{
    let n = front.len() as int;
    let m = pat.len() as int;
    assert((front + pat + rest).subrange(n, n + m) =~= pat);
    assert(occurs_at(front + pat + rest, pat, n));
    assert((pat + rest).subrange(0, m) =~= pat);
    assert((front + pat).subrange(n, n + m) =~= pat);
    if occurs(s, pat) {
        let i = choose|i: int| occurs_at(s, pat, i);
        assert(s =~= s.take(i) + pat + s.skip(i + m)) by {
            assert forall|k: int| i <= k < i + m implies s[k] == pat[k - i] by {
                assert(s.subrange(i, i + m)[k - i] == s[k]);
            }
        }
    }
    if starts(s, pat) {
        assert(s =~= pat + s.skip(m)) by {
            assert forall|k: int| 0 <= k < m implies s[k] == pat[k] by {
                assert(s.subrange(0, m)[k] == s[k]);
            }
        }
    }
    if ends(s, pat) {
        let i = s.len() - m;
        assert(s =~= s.take(i) + pat) by {
            assert forall|k: int| i <= k < s.len() implies s[k] == pat[k - i] by {
                assert(s.subrange(i, i + m)[k - i] == s[k]);
            }
        }
    }
}

} // verus!
