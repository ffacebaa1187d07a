//! Character-sequence utilities: whitespace, ASCII case folding,
//! splitting, trimming, tokenising and joining. The spec functions give
//! the mathematical meaning; the exec functions compute it.

use vstd::prelude::*;

verus! {

/// The whitespace characters, as Unicode defines them.
pub open spec fn is_space(c: char) -> bool {
    c == ' ' || c == '\t' || c == '\n' || c == '\r' || c == '\u{000B}' || c == '\u{000C}'
        || c == '\u{0085}' || c == '\u{00A0}' || c == '\u{1680}' || ('\u{2000}' <= c
        && c <= '\u{200A}') || c == '\u{2028}' || c == '\u{2029}' || c == '\u{202F}'
        || c == '\u{205F}' || c == '\u{3000}'
}

pub fn is_space_char(c: char) -> (r: bool)
    ensures
        r == is_space(c),
{
    match c {
        ' ' | '\t' | '\n' | '\r' | '\u{000B}' | '\u{000C}' | '\u{0085}' | '\u{00A0}'
            | '\u{1680}' | '\u{2000}' | '\u{2001}' | '\u{2002}' | '\u{2003}' | '\u{2004}'
            | '\u{2005}' | '\u{2006}' | '\u{2007}' | '\u{2008}' | '\u{2009}' | '\u{200A}'
            | '\u{2028}' | '\u{2029}' | '\u{202F}' | '\u{205F}' | '\u{3000}' => true,
        _ => false,
    }
}

/// ASCII lower-casing of one character; all others are left alone.
pub open spec fn lower(c: char) -> char {
    if 'A' <= c && c <= 'Z' {
        ((c as u32) + 32) as char
    } else {
        c
    }
}

pub open spec fn lower_seq(s: Seq<char>) -> Seq<char> {
    s.map_values(|c: char| lower(c))
}

pub fn lower_char(c: char) -> (r: char)
    ensures
        r == lower(c),
{
    match c {
        'A' => 'a',
        'B' => 'b',
        'C' => 'c',
        'D' => 'd',
        'E' => 'e',
        'F' => 'f',
        'G' => 'g',
        'H' => 'h',
        'I' => 'i',
        'J' => 'j',
        'K' => 'k',
        'L' => 'l',
        'M' => 'm',
        'N' => 'n',
        'O' => 'o',
        'P' => 'p',
        'Q' => 'q',
        'R' => 'r',
        'S' => 's',
        'T' => 't',
        'U' => 'u',
        'V' => 'v',
        'W' => 'w',
        'X' => 'x',
        'Y' => 'y',
        'Z' => 'z',
        _ => c,
    }
}

/// Does `s` begin with `p`?
pub open spec fn starts_with(s: Seq<char>, p: Seq<char>) -> bool {
    s.len() >= p.len() && s.take(p.len() as int) == p
}

/// The views of a list of character vectors.
pub open spec fn views_of(s: Seq<Vec<char>>) -> Seq<Seq<char>> {
    s.map_values(|v: Vec<char>| v@)
}

/// The characters of a string, one vector entry per `char`.
pub fn str_chars(s: &str) -> (r: Vec<char>)
    ensures
        r@ == s@,
{
    let n = s.unicode_len();
    let mut r: Vec<char> = Vec::new();
    let mut i: usize = 0;
    while i < n
        invariant
            n == s@.len(),
            0 <= i <= n,
            r@ == s@.take(i as int),
        decreases n - i,
    {
        r.push(s.get_char(i));
        proof {
            assert(s@.take(i + 1) =~= s@.take(i as int).push(s@[i as int]));
        }
        i = i + 1;
    }
    proof {
        assert(s@.take(n as int) =~= s@);
    }
    r
}

/// Relies on `String`'s `FromIterator` over `char`: collecting characters
/// yields the string of exactly those characters, in order.
#[verifier::external_body]
pub fn chars_to_string(v: &Vec<char>) -> (r: String)
    ensures
        r@ == v@,
{
    v.iter().collect()
}

/// Splitting on a separator character. Every separator ends a segment, so
/// a sequence with `k` separators has `k + 1` segments.
pub open spec fn split_on(s: Seq<char>, sep: char) -> Seq<Seq<char>>
    decreases s.len(),
{
    if s.len() == 0 {
        seq![Seq::empty()]
    } else if s[0] == sep {
        seq![Seq::<char>::empty()] + split_on(s.drop_first(), sep)
    } else {
        let r = split_on(s.drop_first(), sep);
        seq![seq![s[0]] + r[0]] + r.drop_first()
    }
}

pub proof fn lemma_split_on_len(s: Seq<char>, sep: char)
    ensures
        split_on(s, sep).len() >= 1,
    decreases s.len(),
{
    if s.len() > 0 {
        lemma_split_on_len(s.drop_first(), sep);
    }
}

pub fn split_on_exec(s: Vec<char>, sep: char) -> (r: Vec<Vec<char>>)
    ensures
        views_of(r@) == split_on(s@, sep),
    decreases s@.len(),
{
    let mut s = s;
    if s.len() == 0 {
        let mut r: Vec<Vec<char>> = Vec::new();
        r.push(Vec::new());
        proof {
            assert(views_of(r@) =~= split_on(s@, sep));
        }
        return r;
    }
    let ghost s0 = s@;
    let c = s.remove(0);
    proof {
        assert(s@ =~= s0.drop_first());
        lemma_split_on_len(s@, sep);
    }
    let mut r = split_on_exec(s, sep);
    if c == sep {
        r.insert(0, Vec::new());
        proof {
            assert(views_of(r@) =~= split_on(s0, sep));
        }
    } else {
        let ghost r0 = views_of(r@);
        let mut head = r.remove(0);
        head.insert(0, c);
        r.insert(0, head);
        proof {
            assert(head@ =~= seq![c] + r0[0]);
            assert(views_of(r@) =~= seq![seq![c] + r0[0]] + r0.drop_first());
            assert(views_of(r@) =~= split_on(s0, sep));
        }
    }
    r
}

/// Splitting on whitespace, keeping empty segments.
pub open spec fn split_ws(s: Seq<char>) -> Seq<Seq<char>>
    decreases s.len(),
{
    if s.len() == 0 {
        seq![Seq::empty()]
    } else if is_space(s[0]) {
        seq![Seq::<char>::empty()] + split_ws(s.drop_first())
    } else {
        let r = split_ws(s.drop_first());
        seq![seq![s[0]] + r[0]] + r.drop_first()
    }
}

pub proof fn lemma_split_ws_len(s: Seq<char>)
    ensures
        split_ws(s).len() >= 1,
    decreases s.len(),
{
    if s.len() > 0 {
        lemma_split_ws_len(s.drop_first());
    }
}

pub fn split_ws_exec(s: Vec<char>) -> (r: Vec<Vec<char>>)
    ensures
        views_of(r@) == split_ws(s@),
    decreases s@.len(),
{
    let mut s = s;
    if s.len() == 0 {
        let mut r: Vec<Vec<char>> = Vec::new();
        r.push(Vec::new());
        proof {
            assert(views_of(r@) =~= split_ws(s@));
        }
        return r;
    }
    let ghost s0 = s@;
    let c = s.remove(0);
    proof {
        assert(s@ =~= s0.drop_first());
        lemma_split_ws_len(s@);
    }
    let mut r = split_ws_exec(s);
    if is_space_char(c) {
        r.insert(0, Vec::new());
        proof {
            assert(views_of(r@) =~= split_ws(s0));
        }
    } else {
        let ghost r0 = views_of(r@);
        let mut head = r.remove(0);
        head.insert(0, c);
        r.insert(0, head);
        proof {
            assert(head@ =~= seq![c] + r0[0]);
            assert(views_of(r@) =~= seq![seq![c] + r0[0]] + r0.drop_first());
            assert(views_of(r@) =~= split_ws(s0));
        }
    }
    r
}

/// The non-empty segments of a segment list.
pub open spec fn nonempty_of(parts: Seq<Seq<char>>) -> Seq<Seq<char>> {
    parts.filter(|t: Seq<char>| t.len() > 0)
}

/// The whitespace-separated tokens of a sequence.
pub open spec fn tokens(s: Seq<char>) -> Seq<Seq<char>> {
    nonempty_of(split_ws(s))
}

/// The non-empty segments of one more segment.
pub proof fn lemma_nonempty_push(s: Seq<Seq<char>>, x: Seq<char>)
    ensures
        nonempty_of(s.push(x)) == if x.len() > 0 {
            nonempty_of(s).push(x)
        } else {
            nonempty_of(s)
        },
{
    reveal_with_fuel(Seq::filter, 2);
    assert(s.push(x).drop_last() =~= s);
    assert(s.push(x).last() == x);
}

/// Drops the empty segments of a segment list.
pub fn nonempty_exec(parts: Vec<Vec<char>>) -> (r: Vec<Vec<char>>)
    ensures
        views_of(r@) == nonempty_of(views_of(parts@)),
{
    let mut r: Vec<Vec<char>> = Vec::new();
    let parts = parts;
    let ghost all = views_of(parts@);
    proof {
        reveal_with_fuel(Seq::filter, 2);
        assert(all.take(0) =~= Seq::<Seq<char>>::empty());
    }
    let n = parts.len();
    let mut i: usize = 0;
    while i < n
        invariant
            n == parts@.len(),
            0 <= i <= n,
            all == views_of(parts@),
            views_of(r@) == nonempty_of(all.take(i as int)),
        decreases n - i,
    {
        proof {
            assert(all.take(i + 1) =~= all.take(i as int).push(all[i as int]));
            lemma_nonempty_push(all.take(i as int), all[i as int]);
        }
        let ghost before = views_of(r@);
        let part = &parts[i];
        if part.len() > 0 {
            let copied = copy_vec(part);
            r.push(copied);
            proof {
                assert(views_of(r@) =~= before.push(all[i as int]));
            }
        }
        i = i + 1;
    }
    proof {
        assert(all.take(n as int) =~= all);
    }
    r
}

/// Tokenises: split on whitespace, keep the non-empty segments.
pub fn tokens_exec(s: Vec<char>) -> (r: Vec<Vec<char>>)
    ensures
        views_of(r@) == tokens(s@),
{
    let parts = split_ws_exec(s);
    nonempty_exec(parts)
}

/// A copy of a character vector.
pub fn copy_vec(v: &Vec<char>) -> (r: Vec<char>)
    ensures
        r@ == v@,
{
    let mut r: Vec<char> = Vec::new();
    let n = v.len();
    let mut i: usize = 0;
    while i < n
        invariant
            n == v@.len(),
            0 <= i <= n,
            r@ == v@.take(i as int),
        decreases n - i,
    {
        r.push(v[i]);
        proof {
            assert(v@.take(i + 1) =~= v@.take(i as int).push(v@[i as int]));
        }
        i = i + 1;
    }
    proof {
        assert(v@.take(n as int) =~= v@);
    }
    r
}

/// Appends the characters of `src` to `dst`.
pub fn extend_vec(dst: &mut Vec<char>, src: &Vec<char>)
    ensures
        final(dst)@ == old(dst)@ + src@,
{
    let n = src.len();
    let mut i: usize = 0;
    while i < n
        invariant
            n == src@.len(),
            0 <= i <= n,
            dst@ == old(dst)@ + src@.take(i as int),
        decreases n - i,
    {
        dst.push(src[i]);
        proof {
            assert(old(dst)@ + src@.take(i + 1) =~= (old(dst)@ + src@.take(i as int)).push(
                src@[i as int],
            ));
        }
        i = i + 1;
    }
    proof {
        assert(src@.take(n as int) =~= src@);
    }
}

/// The segments joined with `sep` between neighbours.
pub open spec fn join(parts: Seq<Seq<char>>, sep: Seq<char>) -> Seq<char>
    decreases parts.len(),
{
    if parts.len() == 0 {
        Seq::empty()
    } else if parts.len() == 1 {
        parts[0]
    } else {
        parts[0] + sep + join(parts.drop_first(), sep)
    }
}

/// Joins the segments of `parts` from index `i` on with `sep`.
pub fn join_from(parts: &Vec<Vec<char>>, i: usize, sep: &Vec<char>) -> (r: Vec<char>)
    requires
        i <= parts@.len(),
    ensures
        r@ == join(views_of(parts@).skip(i as int), sep@),
    decreases parts@.len() - i,
{
    let ghost vs = views_of(parts@);
    if i == parts.len() {
        let r: Vec<char> = Vec::new();
        proof {
            assert(vs.skip(i as int) =~= Seq::<Seq<char>>::empty());
        }
        return r;
    }
    let mut r = copy_vec(&parts[i]);
    proof {
        assert(vs.skip(i as int)[0] == vs[i as int]);
    }
    if i + 1 < parts.len() {
        let rest = join_from(parts, i + 1, sep);
        extend_vec(&mut r, sep);
        extend_vec(&mut r, &rest);
        proof {
            assert(vs.skip(i as int).drop_first() =~= vs.skip(i + 1));
            assert(r@ =~= vs.skip(i as int)[0] + sep@ + join(vs.skip(i + 1), sep@));
        }
    } else {
        proof {
            assert(vs.skip(i as int).len() == 1);
        }
    }
    r
}

/// The index of the first whitespace character, or the length if none.
pub open spec fn find_space(s: Seq<char>) -> int
    decreases s.len(),
{
    if s.len() == 0 {
        0
    } else if is_space(s[0]) {
        0
    } else {
        1 + find_space(s.drop_first())
    }
}

pub proof fn lemma_find_space(s: Seq<char>)
    ensures
        0 <= find_space(s) <= s.len(),
        forall|j: int| 0 <= j < find_space(s) ==> !is_space(s[j]),
        find_space(s) < s.len() ==> is_space(s[find_space(s)]),
    decreases s.len(),
{
    if s.len() > 0 && !is_space(s[0]) {
        lemma_find_space(s.drop_first());
        assert forall|j: int| 0 <= j < find_space(s) implies !is_space(s[j]) by {
            if j > 0 {
                assert(s.drop_first()[j - 1] == s[j]);
            }
        }
        if find_space(s) < s.len() {
            assert(s.drop_first()[find_space(s) - 1] == s[find_space(s)]);
        }
    }
}

pub fn find_space_exec(v: &Vec<char>) -> (r: usize)
    ensures
        r as int == find_space(v@),
{
    proof {
        lemma_find_space(v@);
    }
    let n = v.len();
    let mut i: usize = 0;
    while i < n
        invariant
            n == v@.len(),
            0 <= i <= n,
            i <= find_space(v@),
            forall|j: int| 0 <= j < i ==> !is_space(v@[j]),
        decreases n - i,
    {
        proof {
            lemma_find_space_step(v@, i as int);
        }
        if is_space_char(v[i]) {
            return i;
        }
        i = i + 1;
    }
    proof {
        lemma_find_space_step(v@, n as int);
    }
    n
}

/// If no whitespace stands before `i`, the first whitespace is at or
/// after `i`; if `s[i]` itself is whitespace, it is exactly at `i`.
pub proof fn lemma_find_space_step(s: Seq<char>, i: int)
    requires
        0 <= i <= s.len(),
        forall|j: int| 0 <= j < i ==> !is_space(s[j]),
    ensures
        i < s.len() && is_space(s[i]) ==> find_space(s) == i,
        i == s.len() ==> find_space(s) == i,
        i < s.len() && !is_space(s[i]) ==> find_space(s) >= i + 1,
    decreases s.len(),
{
    lemma_find_space(s);
    if s.len() > 0 && !is_space(s[0]) && i > 0 {
        lemma_find_space_step(s.drop_first(), i - 1);
        assert forall|j: int| 0 <= j < i - 1 implies !is_space(s.drop_first()[j]) by {
            assert(s.drop_first()[j] == s[j + 1]);
        }
        if i < s.len() {
            assert(s.drop_first()[i - 1] == s[i]);
        }
    }
}

/// Compares the first `n` characters of `v`, ASCII-lowered, with `pat`.
pub fn prefix_eq_lower(v: &Vec<char>, n: usize, pat: &str) -> (r: bool)
    requires
        n <= v@.len(),
    ensures
        r == (lower_seq(v@.take(n as int)) == pat@),
{
    let m = pat.unicode_len();
    if n != m {
        proof {
            assert(lower_seq(v@.take(n as int)).len() == n);
        }
        return false;
    }
    let mut i: usize = 0;
    while i < n
        invariant
            n == m == pat@.len(),
            n <= v@.len(),
            0 <= i <= n,
            forall|j: int| 0 <= j < i ==> lower(v@[j]) == pat@[j],
        decreases n - i,
    {
        let c = lower_char(v[i]);
        let p = pat.get_char(i);
        if c != p {
            proof {
                assert(lower_seq(v@.take(n as int))[i as int] == lower(v@[i as int]));
            }
            return false;
        }
        i = i + 1;
    }
    proof {
        assert(lower_seq(v@.take(n as int)) =~= pat@);
    }
    true
}

/// Does `v`, ASCII-lowered, begin with `pat`?
pub fn starts_with_lower(v: &Vec<char>, pat: &str) -> (r: bool)
    ensures
        r == starts_with(lower_seq(v@), pat@),
{
    let m = pat.unicode_len();
    if v.len() < m {
        proof {
            assert(lower_seq(v@).len() == v@.len());
        }
        return false;
    }
    let mut i: usize = 0;
    while i < m
        invariant
            m == pat@.len(),
            m <= v@.len(),
            0 <= i <= m,
            forall|j: int| 0 <= j < i ==> lower(v@[j]) == pat@[j],
        decreases m - i,
    {
        let c = lower_char(v[i]);
        let p = pat.get_char(i);
        if c != p {
            proof {
                assert(lower_seq(v@).take(m as int)[i as int] == lower(v@[i as int]));
            }
            return false;
        }
        i = i + 1;
    }
    proof {
        assert(lower_seq(v@).take(m as int) =~= pat@);
    }
    true
}

/// Is `v` exactly `pat`, character for character?
pub fn chars_eq(v: &Vec<char>, pat: &str) -> (r: bool)
    ensures
        r == (v@ == pat@),
{
    let m = pat.unicode_len();
    if v.len() != m {
        return false;
    }
    let mut i: usize = 0;
    while i < m
        invariant
            m == pat@.len(),
            m == v@.len(),
            0 <= i <= m,
            forall|j: int| 0 <= j < i ==> v@[j] == pat@[j],
        decreases m - i,
    {
        let c = v[i];
        let p = pat.get_char(i);
        if c != p {
            return false;
        }
        i = i + 1;
    }
    proof {
        assert(v@ =~= pat@);
    }
    true
}

/// Is `v`, ASCII-lowered, exactly `pat`?
pub fn eq_lower(v: &Vec<char>, pat: &str) -> (r: bool)
    ensures
        r == (lower_seq(v@) == pat@),
{
    let n = v.len();
    proof {
        assert(v@.take(n as int) =~= v@);
    }
    prefix_eq_lower(v, n, pat)
}

/// A copy of the characters of `v` between `from` and `to`.
pub fn copy_range(v: &Vec<char>, from: usize, to: usize) -> (r: Vec<char>)
    requires
        from <= to <= v@.len(),
    ensures
        r@ == v@.subrange(from as int, to as int),
{
    let mut r: Vec<char> = Vec::new();
    let mut i: usize = from;
    while i < to
        invariant
            from <= i <= to <= v@.len(),
            r@ == v@.subrange(from as int, i as int),
        decreases to - i,
    {
        r.push(v[i]);
        proof {
            assert(v@.subrange(from as int, i + 1) =~= v@.subrange(from as int, i as int).push(
                v@[i as int],
            ));
        }
        i = i + 1;
    }
    r
}

/// A sequence without the separator splits to itself alone.
pub proof fn lemma_split_on_free(p: Seq<char>, sep: char)
    requires
        forall|j: int| 0 <= j < p.len() ==> p[j] != sep,
    ensures
        split_on(p, sep) == seq![p],
    decreases p.len(),
{
    if p.len() == 0 {
        assert(split_on(p, sep) =~~= seq![p]);
    } else {
        assert forall|j: int| 0 <= j < p.drop_first().len() implies p.drop_first()[j] != sep by {
            assert(p.drop_first()[j] == p[j + 1]);
        }
        lemma_split_on_free(p.drop_first(), sep);
        assert(seq![p[0]] + p.drop_first() =~= p);
        assert(split_on(p, sep) =~~= seq![p]);
    }
}

/// Splitting a separator-free prefix, a separator, and a rest.
pub proof fn lemma_split_on_concat(p: Seq<char>, s: Seq<char>, sep: char)
    requires
        forall|j: int| 0 <= j < p.len() ==> p[j] != sep,
    ensures
        split_on(p + seq![sep] + s, sep) == seq![p] + split_on(s, sep),
    decreases p.len(),
{
    let whole = p + seq![sep] + s;
    if p.len() == 0 {
        assert(whole[0] == sep);
        assert(whole.drop_first() =~= s);
        assert(split_on(whole, sep) =~~= seq![p] + split_on(s, sep));
    } else {
        assert forall|j: int| 0 <= j < p.drop_first().len() implies p.drop_first()[j] != sep by {
            assert(p.drop_first()[j] == p[j + 1]);
        }
        lemma_split_on_concat(p.drop_first(), s, sep);
        lemma_split_on_len(s, sep);
        assert(whole[0] == p[0]);
        assert(whole[0] != sep);
        assert(whole.drop_first() =~= p.drop_first() + seq![sep] + s);
        let r = split_on(whole.drop_first(), sep);
        assert(r == seq![p.drop_first()] + split_on(s, sep));
        assert(r[0] == p.drop_first());
        assert(seq![p[0]] + r[0] =~= p);
        assert(r.drop_first() =~= split_on(s, sep));
        assert(split_on(whole, sep) =~~= seq![p] + split_on(s, sep));
    }
}

/// A leading space falls to trimming.
pub proof fn lemma_trim_leading_space(x: Seq<char>, c: char)
    requires
        is_space(c),
    ensures
        trim(seq![c] + x) == trim(x),
{
    assert((seq![c] + x).drop_first() =~= x);
}

/// No whitespace at either end: trimming changes nothing.
pub proof fn lemma_trim_fixpoint(d: Seq<char>)
    requires
        d.len() > 0,
        !is_space(d[0]),
        !is_space(d.last()),
    ensures
        trim(d) == d,
{
    assert(trim_start(d) == d);
    assert(trim_end(d) == d);
}

/// Every character of every whitespace-split segment is a non-space
/// character of the sequence itself.
pub proof fn lemma_split_ws_chars(s: Seq<char>)
    ensures
        forall|i: int, j: int|
            0 <= i < split_ws(s).len() && 0 <= j < split_ws(s)[i].len() ==> !is_space(
                #[trigger] split_ws(s)[i][j],
            ) && s.contains(split_ws(s)[i][j]),
    decreases s.len(),
{
    if s.len() == 0 {
    } else if is_space(s[0]) {
        lemma_split_ws_chars(s.drop_first());
        assert forall|i: int, j: int|
            0 <= i < split_ws(s).len() && 0 <= j < split_ws(s)[i].len() implies !is_space(
            #[trigger] split_ws(s)[i][j],
        ) && s.contains(split_ws(s)[i][j]) by {
            if i > 0 {
                assert(split_ws(s)[i] == split_ws(s.drop_first())[i - 1]);
                assert(s.drop_first().contains(split_ws(s)[i][j]));
                let k = choose|k: int|
                    0 <= k < s.drop_first().len() && s.drop_first()[k] == split_ws(s)[i][j];
                assert(s[k + 1] == split_ws(s)[i][j]);
            }
        }
    } else {
        lemma_split_ws_chars(s.drop_first());
        lemma_split_ws_len(s.drop_first());
        let r = split_ws(s.drop_first());
        assert forall|i: int, j: int|
            0 <= i < split_ws(s).len() && 0 <= j < split_ws(s)[i].len() implies !is_space(
            #[trigger] split_ws(s)[i][j],
        ) && s.contains(split_ws(s)[i][j]) by {
            if i == 0 {
                if j == 0 {
                    assert(split_ws(s)[0][0] == s[0]);
                    assert(s.contains(s[0]));
                } else {
                    assert(split_ws(s)[0] == seq![s[0]] + r[0]);
                    assert(split_ws(s)[0][j] == r[0][j - 1]);
                    assert(s.drop_first().contains(r[0][j - 1]));
                    let k = choose|k: int|
                        0 <= k < s.drop_first().len() && s.drop_first()[k] == r[0][j - 1];
                    assert(s[k + 1] == split_ws(s)[i][j]);
                }
            } else {
                assert(split_ws(s)[i] == r.drop_first()[i - 1]);
                assert(r.drop_first()[i - 1] == r[i]);
                assert(s.drop_first().contains(r[i][j]));
                let k = choose|k: int|
                    0 <= k < s.drop_first().len() && s.drop_first()[k] == r[i][j];
                assert(s[k + 1] == split_ws(s)[i][j]);
            }
        }
    }
}

/// Every token is non-empty and made of non-space characters of `s`.
pub proof fn lemma_tokens_chars(s: Seq<char>)
    ensures
        forall|i: int|
            0 <= i < tokens(s).len() ==> (#[trigger] tokens(s)[i]).len() > 0,
        forall|i: int, j: int|
            0 <= i < tokens(s).len() && 0 <= j < tokens(s)[i].len() ==> !is_space(
                #[trigger] tokens(s)[i][j],
            ) && s.contains(tokens(s)[i][j]),
{
    lemma_split_ws_chars(s);
    let pred = |t: Seq<char>| t.len() > 0;
    assert forall|i: int| 0 <= i < tokens(s).len() implies (#[trigger] tokens(s)[i]).len()
        > 0 by {
        split_ws(s).lemma_filter_pred(pred, i);
    }
    assert forall|i: int, j: int|
        0 <= i < tokens(s).len() && 0 <= j < tokens(s)[i].len() implies !is_space(
        #[trigger] tokens(s)[i][j],
    ) && s.contains(tokens(s)[i][j]) by {
        lemma_filter_element_of(split_ws(s), pred, i);
        let k = choose|k: int|
            0 <= k < split_ws(s).len() && split_ws(s)[k] == tokens(s)[i];
        assert(!is_space(split_ws(s)[k][j]) && s.contains(split_ws(s)[k][j]));
    }
}

/// Every element of a filtered sequence is an element of the original.
pub proof fn lemma_filter_element_of<A>(s: Seq<A>, pred: spec_fn(A) -> bool, i: int)
    requires
        0 <= i < s.filter(pred).len(),
    ensures
        exists|k: int| 0 <= k < s.len() && s[k] == s.filter(pred)[i],
    decreases s.len(),
{
    reveal_with_fuel(Seq::filter, 2);
    if s.len() > 0 {
        let sub = s.drop_last();
        if pred(s.last()) && i == s.filter(pred).len() - 1 {
            assert(s[s.len() - 1] == s.filter(pred)[i]);
        } else {
            lemma_filter_element_of(sub, pred, i);
            let k = choose|k: int| 0 <= k < sub.len() && sub[k] == sub.filter(pred)[i];
            assert(s[k] == s.filter(pred)[i]);
        }
    }
}

/// Filtering keeps a sequence whose elements all satisfy the predicate.
pub proof fn lemma_filter_all<A>(s: Seq<A>, pred: spec_fn(A) -> bool)
    requires
        forall|i: int| 0 <= i < s.len() ==> pred(#[trigger] s[i]),
    ensures
        s.filter(pred) == s,
    decreases s.len(),
{
    reveal_with_fuel(Seq::filter, 2);
    if s.len() > 0 {
        lemma_filter_all(s.drop_last(), pred);
        assert(s.drop_last().push(s.last()) =~= s);
    }
}

/// The join of non-empty space-free segments tokenises back to them.
pub proof fn lemma_tokens_of_join(parts: Seq<Seq<char>>)
    requires
        forall|i: int| 0 <= i < parts.len() ==> (#[trigger] parts[i]).len() > 0,
        forall|i: int, j: int|
            0 <= i < parts.len() && 0 <= j < parts[i].len() ==> !is_space(#[trigger] parts[i][j]),
    ensures
        tokens(join(parts, " "@)) == parts,
    decreases parts.len(),
{
    reveal_strlit(" ");
    reveal_with_fuel(Seq::filter, 3);
    if parts.len() == 0 {
        assert(split_ws(join(parts, " "@)) =~~= seq![Seq::<char>::empty()]);
        assert(seq![Seq::<char>::empty()].drop_last() =~= Seq::<Seq<char>>::empty());
        assert(tokens(join(parts, " "@)) =~~= parts);
    } else if parts.len() == 1 {
        lemma_split_ws_free(parts[0]);
        assert(split_ws(parts[0]).filter(|t: Seq<char>| t.len() > 0) =~= seq![parts[0]].filter(
            |t: Seq<char>| t.len() > 0,
        ));
        lemma_filter_all(seq![parts[0]], |t: Seq<char>| t.len() > 0);
        assert(tokens(join(parts, " "@)) =~~= parts);
    } else {
        lemma_tokens_of_join(parts.drop_first());
        assert(" "@ =~= seq![' ']);
        assert(join(parts, " "@) =~= parts[0] + seq![' '] + join(parts.drop_first(), " "@));
        lemma_split_ws_concat(parts[0], join(parts.drop_first(), " "@));
        let rest = split_ws(join(parts.drop_first(), " "@));
        assert(split_ws(join(parts, " "@)) == seq![parts[0]] + rest);
        lemma_filter_cons_kept(rest, parts[0]);
        assert(tokens(join(parts, " "@)) =~~= parts);
    }
}

/// A space-free sequence splits on whitespace to itself alone.
pub proof fn lemma_split_ws_free(p: Seq<char>)
    requires
        forall|j: int| 0 <= j < p.len() ==> !is_space(#[trigger] p[j]),
    ensures
        split_ws(p) == seq![p],
    decreases p.len(),
{
    if p.len() == 0 {
        assert(split_ws(p) =~~= seq![p]);
    } else {
        assert forall|j: int| 0 <= j < p.drop_first().len() implies !is_space(
            #[trigger] p.drop_first()[j],
        ) by {
            assert(p.drop_first()[j] == p[j + 1]);
        }
        lemma_split_ws_free(p.drop_first());
        assert(seq![p[0]] + p.drop_first() =~= p);
        assert(split_ws(p) =~~= seq![p]);
    }
}

/// Splitting a space-free prefix, one space, and a rest on whitespace.
pub proof fn lemma_split_ws_concat(p: Seq<char>, s: Seq<char>)
    requires
        forall|j: int| 0 <= j < p.len() ==> !is_space(#[trigger] p[j]),
    ensures
        split_ws(p + seq![' '] + s) == seq![p] + split_ws(s),
    decreases p.len(),
{
    let whole = p + seq![' '] + s;
    if p.len() == 0 {
        assert(whole[0] == ' ');
        assert(whole.drop_first() =~= s);
        assert(split_ws(whole) =~~= seq![p] + split_ws(s));
    } else {
        assert forall|j: int| 0 <= j < p.drop_first().len() implies !is_space(
            #[trigger] p.drop_first()[j],
        ) by {
            assert(p.drop_first()[j] == p[j + 1]);
        }
        lemma_split_ws_concat(p.drop_first(), s);
        lemma_split_ws_len(s);
        assert(whole[0] == p[0]);
        assert(whole.drop_first() =~= p.drop_first() + seq![' '] + s);
        let r = split_ws(whole.drop_first());
        assert(r[0] == p.drop_first());
        assert(seq![p[0]] + r[0] =~= p);
        assert(r.drop_first() =~= split_ws(s));
        assert(split_ws(whole) =~~= seq![p] + split_ws(s));
    }
}

/// Filtering a list headed by a kept element.
pub proof fn lemma_filter_cons_kept(rest: Seq<Seq<char>>, head: Seq<char>)
    requires
        head.len() > 0,
    ensures
        (seq![head] + rest).filter(|t: Seq<char>| t.len() > 0) == seq![head] + rest.filter(
            |t: Seq<char>| t.len() > 0,
        ),
    decreases rest.len(),
{
    let pred = |t: Seq<char>| t.len() > 0;
    reveal_with_fuel(Seq::filter, 2);
    if rest.len() == 0 {
        assert(seq![head] + rest =~= seq![head]);
        assert(seq![head].drop_last() =~= Seq::<Seq<char>>::empty());
        assert(seq![head].filter(pred) =~= seq![head]);
        assert(seq![head] + rest.filter(pred) =~= seq![head]);
    } else {
        lemma_filter_cons_kept(rest.drop_last(), head);
        assert((seq![head] + rest).drop_last() =~= seq![head] + rest.drop_last());
        assert((seq![head] + rest).last() == rest.last());
        if pred(rest.last()) {
            assert((seq![head] + rest).filter(pred) =~= seq![head] + rest.filter(pred));
        } else {
            assert((seq![head] + rest).filter(pred) =~= seq![head] + rest.filter(pred));
        }
    }
}

/// Filtering a list headed by a dropped element.
pub proof fn lemma_filter_cons_dropped(rest: Seq<Seq<char>>, head: Seq<char>)
    requires
        head.len() == 0,
    ensures
        (seq![head] + rest).filter(|t: Seq<char>| t.len() > 0) == rest.filter(
            |t: Seq<char>| t.len() > 0,
        ),
    decreases rest.len(),
{
    let pred = |t: Seq<char>| t.len() > 0;
    reveal_with_fuel(Seq::filter, 2);
    if rest.len() == 0 {
        assert(seq![head] + rest =~= seq![head]);
        assert(seq![head].drop_last() =~= Seq::<Seq<char>>::empty());
        assert((seq![head] + rest).filter(pred) =~= rest.filter(pred));
    } else {
        lemma_filter_cons_dropped(rest.drop_last(), head);
        assert((seq![head] + rest).drop_last() =~= seq![head] + rest.drop_last());
        assert((seq![head] + rest).last() == rest.last());
        if pred(rest.last()) {
            assert((seq![head] + rest).filter(pred) =~= rest.filter(pred));
        } else {
            assert((seq![head] + rest).filter(pred) =~= rest.filter(pred));
        }
    }
}

/// A token list is unmoved by a leading space.
pub proof fn lemma_tokens_leading_space(x: Seq<char>)
    ensures
        tokens(seq![' '] + x) == tokens(x),
{
    assert((seq![' '] + x)[0] == ' ');
    assert((seq![' '] + x).drop_first() =~= x);
    assert(split_ws(seq![' '] + x) == seq![Seq::<char>::empty()] + split_ws(x));
    lemma_filter_cons_dropped(split_ws(x), Seq::empty());
}

/// Every character of every separator-split segment is a non-separator
/// character of the sequence itself.
pub proof fn lemma_split_on_chars(s: Seq<char>, sep: char)
    ensures
        forall|i: int, j: int|
            0 <= i < split_on(s, sep).len() && 0 <= j < split_on(s, sep)[i].len() ==> (
            #[trigger] split_on(s, sep)[i][j]) != sep && s.contains(split_on(s, sep)[i][j]),
    decreases s.len(),
{
    if s.len() == 0 {
    } else if s[0] == sep {
        lemma_split_on_chars(s.drop_first(), sep);
        assert forall|i: int, j: int|
            0 <= i < split_on(s, sep).len() && 0 <= j < split_on(s, sep)[i].len() implies (
        #[trigger] split_on(s, sep)[i][j]) != sep && s.contains(split_on(s, sep)[i][j]) by {
            if i > 0 {
                assert(split_on(s, sep)[i] == split_on(s.drop_first(), sep)[i - 1]);
                let c = split_on(s, sep)[i][j];
                assert(s.drop_first().contains(c));
                let k = choose|k: int| 0 <= k < s.drop_first().len() && s.drop_first()[k] == c;
                assert(s[k + 1] == c);
            }
        }
    } else {
        lemma_split_on_chars(s.drop_first(), sep);
        lemma_split_on_len(s.drop_first(), sep);
        let r = split_on(s.drop_first(), sep);
        assert forall|i: int, j: int|
            0 <= i < split_on(s, sep).len() && 0 <= j < split_on(s, sep)[i].len() implies (
        #[trigger] split_on(s, sep)[i][j]) != sep && s.contains(split_on(s, sep)[i][j]) by {
            let c = split_on(s, sep)[i][j];
            if i == 0 {
                if j == 0 {
                    assert(c == s[0]);
                    assert(s.contains(s[0]));
                } else {
                    assert(split_on(s, sep)[0] == seq![s[0]] + r[0]);
                    assert(c == r[0][j - 1]);
                    assert(s.drop_first().contains(c));
                    let k = choose|k: int|
                        0 <= k < s.drop_first().len() && s.drop_first()[k] == c;
                    assert(s[k + 1] == c);
                }
            } else {
                assert(split_on(s, sep)[i] == r.drop_first()[i - 1]);
                assert(r.drop_first()[i - 1] == r[i]);
                assert(s.drop_first().contains(c));
                let k = choose|k: int| 0 <= k < s.drop_first().len() && s.drop_first()[k] == c;
                assert(s[k + 1] == c);
            }
        }
    }
}

/// The shape of a join of non-empty segments: non-empty, bracketed by
/// the first and last segment characters, made only of segment and
/// separator characters.
pub proof fn lemma_join_chars(parts: Seq<Seq<char>>, sep: Seq<char>)
    requires
        parts.len() > 0,
        forall|i: int| 0 <= i < parts.len() ==> (#[trigger] parts[i]).len() > 0,
    ensures
        join(parts, sep).len() > 0,
        join(parts, sep)[0] == parts[0][0],
        join(parts, sep).last() == parts.last().last(),
        forall|k: int|
            0 <= k < join(parts, sep).len() ==> sep.contains(#[trigger] join(parts, sep)[k])
                || exists|i: int|
                0 <= i < parts.len() && (#[trigger] parts[i]).contains(join(parts, sep)[k]),
    decreases parts.len(),
{
    if parts.len() == 1 {
        assert forall|k: int| 0 <= k < join(parts, sep).len() implies sep.contains(
            #[trigger] join(parts, sep)[k],
        ) || exists|i: int|
            0 <= i < parts.len() && (#[trigger] parts[i]).contains(join(parts, sep)[k]) by {
            assert(parts[0].contains(parts[0][k]));
        }
    } else {
        lemma_join_chars(parts.drop_first(), sep);
        let rest = join(parts.drop_first(), sep);
        let whole = parts[0] + sep + rest;
        assert(parts.drop_first()[parts.drop_first().len() - 1] == parts.last());
        assert(whole.last() == rest.last());
        assert forall|k: int| 0 <= k < whole.len() implies sep.contains(#[trigger] whole[k])
            || exists|i: int|
            0 <= i < parts.len() && (#[trigger] parts[i]).contains(whole[k]) by {
            if k < parts[0].len() {
                assert(parts[0].contains(parts[0][k]));
            } else if k < parts[0].len() + sep.len() {
                assert(sep.contains(sep[k - parts[0].len()]));
            } else {
                let k2 = k - parts[0].len() - sep.len();
                assert(whole[k] == rest[k2]);
                if !sep.contains(rest[k2]) {
                    let i = choose|i: int|
                        0 <= i < parts.drop_first().len() && (
                        #[trigger] parts.drop_first()[i]).contains(rest[k2]);
                    assert(parts.drop_first()[i] == parts[i + 1]);
                    assert(parts[i + 1].contains(whole[k]));
                }
            }
        }
    }
}

/// A non-empty trimmed sequence has no whitespace at its ends, and all
/// its characters come from the sequence itself.
pub proof fn lemma_trim_shape(s: Seq<char>)
    ensures
        trim(s).len() > 0 ==> !is_space(trim(s)[0]),
        trim(s).len() > 0 ==> !is_space(trim(s).last()),
        forall|c: char| trim(s).contains(c) ==> s.contains(c),
{
    lemma_trim_start_shape(s);
    lemma_trim_end_shape(trim_start(s));
    assert forall|c: char| trim(s).contains(c) implies s.contains(c) by {
        assert(trim_start(s).contains(c));
    }
    if trim(s).len() > 0 {
        lemma_trim_end_first(trim_start(s));
    }
}

proof fn lemma_trim_start_shape(s: Seq<char>)
    ensures
        trim_start(s).len() > 0 ==> !is_space(trim_start(s)[0]),
        forall|c: char| trim_start(s).contains(c) ==> s.contains(c),
    decreases s.len(),
{
    if s.len() > 0 && is_space(s[0]) {
        lemma_trim_start_shape(s.drop_first());
        assert forall|c: char| trim_start(s).contains(c) implies s.contains(c) by {
            assert(s.drop_first().contains(c));
            let k = choose|k: int| 0 <= k < s.drop_first().len() && s.drop_first()[k] == c;
            assert(s[k + 1] == c);
        }
    }
}

proof fn lemma_trim_end_shape(s: Seq<char>)
    ensures
        trim_end(s).len() > 0 ==> !is_space(trim_end(s).last()),
        forall|c: char| trim_end(s).contains(c) ==> s.contains(c),
    decreases s.len(),
{
    if s.len() > 0 && is_space(s.last()) {
        lemma_trim_end_shape(s.drop_last());
        assert forall|c: char| trim_end(s).contains(c) implies s.contains(c) by {
            assert(s.drop_last().contains(c));
            let k = choose|k: int| 0 <= k < s.drop_last().len() && s.drop_last()[k] == c;
            assert(s[k] == c);
        }
    }
}

/// Trimming the end keeps the first character.
proof fn lemma_trim_end_first(s: Seq<char>)
    requires
        trim_end(s).len() > 0,
    ensures
        trim_end(s)[0] == s[0],
    decreases s.len(),
{
    if s.len() > 0 && is_space(s.last()) {
        lemma_trim_end_first(s.drop_last());
    }
}

/// Leading whitespace removed.
pub open spec fn trim_start(s: Seq<char>) -> Seq<char>
    decreases s.len(),
{
    if s.len() > 0 && is_space(s[0]) {
        trim_start(s.drop_first())
    } else {
        s
    }
}

/// Trailing whitespace removed.
pub open spec fn trim_end(s: Seq<char>) -> Seq<char>
    decreases s.len(),
{
    if s.len() > 0 && is_space(s.last()) {
        trim_end(s.drop_last())
    } else {
        s
    }
}

/// Leading and trailing whitespace removed.
pub open spec fn trim(s: Seq<char>) -> Seq<char> {
    trim_end(trim_start(s))
}

pub fn trim_exec(v: Vec<char>) -> (r: Vec<char>)
    ensures
        r@ == trim(v@),
{
    let ghost entry = v@;
    let mut v = v;
    loop
        invariant
            trim_start(v@) == trim_start(entry),
        ensures
            trim_start(v@) == trim_start(entry),
            v@.len() == 0 || !is_space(v@[0]),
        decreases v@.len(),
    {
        if v.len() > 0 {
            let c = v[0];
            if is_space_char(c) {
                let ghost prev = v@;
                v.remove(0);
                proof {
                    assert(v@ =~= prev.drop_first());
                }
                continue;
            }
        }
        break;
    }
    proof {
        assert(v@ == trim_start(entry));
    }
    let ghost mid = v@;
    loop
        invariant
            trim_end(v@) == trim_end(mid),
        ensures
            trim_end(v@) == trim_end(mid),
            v@.len() == 0 || !is_space(v@.last()),
        decreases v@.len(),
    {
        if v.len() > 0 {
            let c = v[v.len() - 1];
            if is_space_char(c) {
                let ghost prev = v@;
                v.pop();
                proof {
                    assert(v@ =~= prev.drop_last());
                }
                continue;
            }
        }
        break;
    }
    proof {
        assert(v@ == trim_end(mid));
    }
    v
}

} // verus!
