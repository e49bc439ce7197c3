//! Splitting, searching and line handling over character sequences.
use vstd::prelude::*;
use vstd::string::*;
use crate::text::{char_is_whitespace, chars_of, is_whitespace};

verus! {

/// Whether `c` separates pieces: the given character, or whitespace when none is given.
pub open spec fn is_sep(c: char, sep: Option<char>) -> bool {
    match sep {
        Some(x) => c == x,
        None => is_whitespace(c),
    }
}

/// The pieces of `s` between separators (`str::split`); always at least one piece.
pub open spec fn split_by(s: Seq<char>, sep: Option<char>) -> Seq<Seq<char>>
    decreases s.len(),
{
    if s.len() == 0 {
        seq![Seq::empty()]
    } else {
        let r = split_by(s.drop_last(), sep);
        if is_sep(s.last(), sep) {
            r.push(Seq::empty())
        } else {
            r.update(r.len() - 1, r.last().push(s.last()))
        }
    }
}

/// The views of a vector of character vectors.
pub open spec fn views(v: Seq<Vec<char>>) -> Seq<Seq<char>> {
    v.map_values(|x: Vec<char>| x@)
}

pub proof fn lemma_split_by_nonempty(s: Seq<char>, sep: Option<char>)
    ensures
        split_by(s, sep).len() >= 1,
    decreases s.len(),
{
    if s.len() > 0 {
        lemma_split_by_nonempty(s.drop_last(), sep);
    }
}

fn is_sep_exec(c: char, sep: Option<char>) -> (r: bool)
    ensures
        r == is_sep(c, sep),
{
    match sep {
        Some(x) => c == x,
        None => char_is_whitespace(c),
    }
}

/// Splits `s` at every separator.
pub fn split_chars(s: &[char], sep: Option<char>) -> (r: Vec<Vec<char>>)
    ensures
        views(r@) == split_by(s@, sep),
{
    let mut pieces: Vec<Vec<char>> = Vec::new();
    let mut cur: Vec<char> = Vec::new();
    let mut i: usize = 0;
    assert(s@.take(0) =~= Seq::<char>::empty());
    assert(views(pieces@).push(cur@) =~= seq![Seq::<char>::empty()]);
    while i < s.len()
        invariant
            i <= s@.len(),
            split_by(s@.take(i as int), sep) == views(pieces@).push(cur@),
        decreases s@.len() - i,
    {
        let c = s[i];
        let ghost pre = s@.take(i as int);
        assert(s@.take(i as int + 1).drop_last() =~= pre);
        assert(s@.take(i as int + 1).last() == c);
        if is_sep_exec(c, sep) {
            let ghost old_pieces = pieces@;
            let ghost old_cur = cur@;
            let done = cur;
            pieces.push(done);
            cur = Vec::new();
            assert(views(pieces@) =~= views(old_pieces).push(old_cur));
            assert(views(pieces@).push(cur@) =~= views(old_pieces).push(old_cur).push(
                Seq::<char>::empty(),
            ));
        } else {
            let ghost old_cur = cur@;
            cur.push(c);
            assert(views(pieces@).push(cur@) =~= views(pieces@).push(old_cur).update(
                pieces@.len() as int,
                old_cur.push(c),
            ));
        }
        i += 1;
    }
    assert(s@.take(s@.len() as int) =~= s@);
    let ghost old_pieces = pieces@;
    let ghost last = cur@;
    pieces.push(cur);
    assert(views(pieces@) =~= views(old_pieces).push(last));
    pieces
}

/// The pieces of `s` that are not empty.
pub open spec fn nonempty_pieces(p: Seq<Seq<char>>) -> Seq<Seq<char>>
    decreases p.len(),
{
    if p.len() == 0 {
        Seq::empty()
    } else if p.last().len() > 0 {
        nonempty_pieces(p.drop_last()).push(p.last())
    } else {
        nonempty_pieces(p.drop_last())
    }
}

/// The whitespace-separated words of `s` (`str::split_whitespace`).
pub open spec fn words(s: Seq<char>) -> Seq<Seq<char>> {
    nonempty_pieces(split_by(s, None))
}

/// Keeps the non-empty pieces.
pub fn keep_nonempty(p: Vec<Vec<char>>) -> (r: Vec<Vec<char>>)
    ensures
        views(r@) == nonempty_pieces(views(p@)),
{
    let mut out: Vec<Vec<char>> = Vec::new();
    let mut i: usize = 0;
    let ghost pv = views(p@);
    assert(pv.take(0) =~= Seq::<Seq<char>>::empty());
    while i < p.len()
        invariant
            i <= p@.len(),
            pv == views(p@),
            views(out@) == nonempty_pieces(pv.take(i as int)),
        decreases p@.len() - i,
    {
        assert(pv.take(i as int + 1).drop_last() =~= pv.take(i as int));
        assert(pv.take(i as int + 1).last() == p@[i as int]@);
        if p[i].len() > 0 {
            let ghost before = out@;
            out.push(p[i].clone());
            assert(views(out@) =~= views(before).push(p@[i as int]@));
        }
        i += 1;
    }
    assert(pv.take(p@.len() as int) =~= pv);
    out
}

/// The whitespace-separated words of `s`.
pub fn split_words(s: &[char]) -> (r: Vec<Vec<char>>)
    ensures
        views(r@) == words(s@),
{
    let pieces = split_chars(s, None);
    keep_nonempty(pieces)
}

/// `s` without one trailing carriage return.
pub open spec fn strip_cr(s: Seq<char>) -> Seq<char> {
    if s.len() > 0 && s.last() == '\r' {
        s.drop_last()
    } else {
        s
    }
}

/// The lines of `s` (`str::lines`): split at `\n`, a `\r` before the `\n` dropped, and no
/// empty final line after a trailing `\n`.
pub open spec fn lines(s: Seq<char>) -> Seq<Seq<char>> {
    let p = split_by(s, Some('\n'));
    let body = p.drop_last().map_values(|x: Seq<char>| strip_cr(x));
    if p.last().len() > 0 {
        body.push(p.last())
    } else {
        body
    }
}

/// A sequence with no separator is one piece.
pub proof fn lemma_split_no_sep(a: Seq<char>, sep: Option<char>)
    requires
        forall|i: int| 0 <= i < a.len() ==> !is_sep(#[trigger] a[i], sep),
    ensures
        split_by(a, sep) == seq![a],
    decreases a.len(),
{
    if a.len() > 0 {
        let q = a.drop_last();
        assert forall|i: int| 0 <= i < q.len() implies !is_sep(#[trigger] q[i], sep) by {
            assert(q[i] == a[i]);
        }
        lemma_split_no_sep(q, sep);
        assert(!is_sep(a[a.len() - 1], sep));
        assert(q.push(a.last()) =~= a);
        assert(seq![q].update(0, q.push(a.last())) =~= seq![a]);
    } else {
        assert(a =~= Seq::<char>::empty());
    }
}

/// Splitting at a separator gives the pieces before it followed by the pieces after it.
pub proof fn lemma_split_concat(a: Seq<char>, c: char, b: Seq<char>, sep: Option<char>)
    requires
        is_sep(c, sep),
    ensures
        split_by(a.push(c) + b, sep) == split_by(a, sep) + split_by(b, sep),
    decreases b.len(),
{
    if b.len() == 0 {
        assert(a.push(c) + b =~= a.push(c));
        assert(a.push(c).drop_last() =~= a);
        assert(split_by(a, sep).push(Seq::empty()) =~= split_by(a, sep) + seq![Seq::<char>::empty()]);
    } else {
        let q = b.drop_last();
        lemma_split_concat(a, c, q, sep);
        assert((a.push(c) + b).drop_last() =~= a.push(c) + q);
        assert((a.push(c) + b).last() == b.last());
        lemma_split_by_nonempty(q, sep);
        let l = split_by(a, sep);
        let r = split_by(q, sep);
        if is_sep(b.last(), sep) {
            assert((l + r).push(Seq::empty()) =~= l + r.push(Seq::empty()));
        } else {
            assert((l + r).update((l + r).len() - 1, (l + r).last().push(b.last()))
                =~= l + r.update(r.len() - 1, r.last().push(b.last())));
        }
    }
}

/// Lines joined with `\r\n`.
pub open spec fn crlf_join(ls: Seq<Seq<char>>) -> Seq<char>
    decreases ls.len(),
{
    if ls.len() == 0 {
        Seq::empty()
    } else if ls.len() == 1 {
        ls[0]
    } else {
        crlf_join(ls.drop_last()) + "\r\n"@ + ls.last()
    }
}

proof fn lemma_split_crlf_join(ls: Seq<Seq<char>>)
    requires
        ls.len() >= 1,
        forall|i: int, j: int| 0 <= i < ls.len() && 0 <= j < ls[i].len() ==> (#[trigger] ls[i][j]) != '\n',
    ensures
        split_by(crlf_join(ls), Some('\n')).len() == ls.len(),
        split_by(crlf_join(ls), Some('\n')).last() == ls.last(),
        forall|i: int| 0 <= i < ls.len() - 1 ==> #[trigger] split_by(crlf_join(ls), Some('\n'))[i] == ls[i].push('\r'),
    decreases ls.len(),
{
    reveal_strlit("\r\n");
    if ls.len() == 1 {
        lemma_split_no_sep(ls[0], Some('\n'));
    } else {
        let q = ls.drop_last();
        assert forall|i: int, j: int| 0 <= i < q.len() && 0 <= j < q[i].len() implies (#[trigger] q[i][j]) != '\n' by {
            assert(q[i] == ls[i]);
        }
        lemma_split_crlf_join(q);
        let jq = crlf_join(q);
        assert(crlf_join(ls) =~= jq.push('\r').push('\n') + ls.last());
        lemma_split_concat(jq.push('\r'), '\n', ls.last(), Some('\n'));
        assert(jq.push('\r').drop_last() =~= jq);
        lemma_split_no_sep(ls.last(), Some('\n'));
        let pq = split_by(jq, Some('\n'));
        assert(split_by(jq.push('\r'), Some('\n')) == pq.update(pq.len() - 1, pq.last().push('\r')));
    }
}

/// The lines of `\r\n`-joined lines without line feeds, the last one not empty, are those
/// lines.
pub proof fn lemma_lines_crlf_join(ls: Seq<Seq<char>>)
    requires
        ls.len() >= 1,
        ls.last().len() > 0,
        forall|i: int, j: int| 0 <= i < ls.len() && 0 <= j < ls[i].len() ==> (#[trigger] ls[i][j]) != '\n',
    ensures
        lines(crlf_join(ls)) == ls,
{
    lemma_split_crlf_join(ls);
    let p = split_by(crlf_join(ls), Some('\n'));
    let body = p.drop_last().map_values(|x: Seq<char>| strip_cr(x));
    assert forall|i: int| 0 <= i < body.len() implies #[trigger] body[i] == ls[i] by {
        assert(p[i] == ls[i].push('\r'));
        assert(ls[i].push('\r').drop_last() =~= ls[i]);
    }
    assert(body.push(p.last()) =~= ls);
}

/// Three words without whitespace, joined by single spaces, are those three words.
pub proof fn lemma_words_three(a: Seq<char>, b: Seq<char>, c: Seq<char>)
    requires
        a.len() > 0,
        b.len() > 0,
        c.len() > 0,
        forall|i: int| 0 <= i < a.len() ==> !is_whitespace(#[trigger] a[i]),
        forall|i: int| 0 <= i < b.len() ==> !is_whitespace(#[trigger] b[i]),
        forall|i: int| 0 <= i < c.len() ==> !is_whitespace(#[trigger] c[i]),
    ensures
        words(a + " "@ + b + " "@ + c) == seq![a, b, c],
{
    reveal_strlit(" ");
    assert(is_whitespace(' '));
    assert(a + " "@ + b + " "@ + c =~= a.push(' ') + (b.push(' ') + c));
    lemma_split_concat(b, ' ', c, None);
    lemma_split_concat(a, ' ', b.push(' ') + c, None);
    lemma_split_no_sep(a, None);
    lemma_split_no_sep(b, None);
    lemma_split_no_sep(c, None);
    let p = seq![a, b, c];
    assert(split_by(a + " "@ + b + " "@ + c, None) =~= p);
    assert(p.drop_last() =~= seq![a, b]);
    assert(seq![a, b].drop_last() =~= seq![a]);
    assert(seq![a].drop_last() =~= Seq::<Seq<char>>::empty());
    assert(nonempty_pieces(Seq::<Seq<char>>::empty()) =~= Seq::<Seq<char>>::empty());
    assert(seq![a].last() == a);
    assert(Seq::<Seq<char>>::empty().push(a) =~= seq![a]);
    assert(nonempty_pieces(seq![a]) =~= seq![a]);
    assert(seq![a, b].last() == b);
    assert(p.last() == c);
    assert(nonempty_pieces(seq![a, b]) =~= seq![a, b]);
}

/// Lines joined with `\r\n` never hold two line feeds two apart, and do not end with one,
/// where the lines are not empty and hold no line feed.
pub proof fn lemma_crlf_join_line_feeds(ls: Seq<Seq<char>>)
    requires
        ls.len() >= 1,
        forall|i: int| 0 <= i < ls.len() ==> (#[trigger] ls[i]).len() > 0,
        forall|i: int, j: int| 0 <= i < ls.len() && 0 <= j < ls[i].len() ==> (#[trigger] ls[i][j]) != '\n',
    ensures
        crlf_join(ls).len() > 0,
        crlf_join(ls).last() != '\n',
        forall|i: int| 0 <= i && i + 2 < crlf_join(ls).len() && #[trigger] crlf_join(ls)[i] == '\n' ==> crlf_join(ls)[i + 2] != '\n',
    decreases ls.len(),
{
    reveal_strlit("\r\n");
    if ls.len() == 1 {
        assert(ls[0][ls[0].len() - 1] != '\n');
        assert forall|i: int| 0 <= i && i + 2 < crlf_join(ls).len() && #[trigger] crlf_join(ls)[i] == '\n' implies crlf_join(ls)[i + 2] != '\n' by {
            assert(ls[0][i] != '\n');
        }
    } else {
        let q = ls.drop_last();
        let l = ls.last();
        assert forall|i: int| 0 <= i < q.len() implies (#[trigger] q[i]).len() > 0 by {
            assert(q[i] == ls[i]);
        }
        assert forall|i: int, j: int| 0 <= i < q.len() && 0 <= j < q[i].len() implies (#[trigger] q[i][j]) != '\n' by {
            assert(q[i] == ls[i]);
        }
        lemma_crlf_join_line_feeds(q);
        let jq = crlf_join(q);
        let j = crlf_join(ls);
        let n = jq.len() as int;
        assert(j =~= jq + "\r\n"@ + l);
        assert forall|k: int| 0 <= k < l.len() implies #[trigger] l[k] != '\n' by {
            assert(ls[ls.len() - 1] == l);
        }
        assert(j.last() == l[l.len() - 1]);
        assert forall|i: int| 0 <= i && i + 2 < j.len() && #[trigger] j[i] == '\n' implies j[i + 2] != '\n' by {
            if i + 2 < n {
                assert(j[i] == jq[i] && j[i + 2] == jq[i + 2]);
            } else if i + 2 == n {
                assert(j[i + 2] == '\r');
            } else if i + 2 == n + 1 {
                assert(j[i] == jq[n - 1]);
            } else if i == n {
                assert(j[i] == '\r');
            } else {
                assert(j[i + 2] == l[i + 2 - n - 2]);
            }
        }
    }
}

/// The lines of `s`.
pub fn split_lines(s: &[char]) -> (r: Vec<Vec<char>>)
    ensures
        views(r@) == lines(s@),
{
    let pieces = split_chars(s, Some('\n'));
    proof {
        lemma_split_by_nonempty(s@, Some('\n'));
    }
    let n = pieces.len();
    let ghost pv = views(pieces@);
    let mut out: Vec<Vec<char>> = Vec::new();
    let mut i: usize = 0;
    while i + 1 < n
        invariant
            n == pieces@.len(),
            n >= 1,
            pv == views(pieces@),
            pv == split_by(s@, Some('\n')),
            i + 1 <= n,
            views(out@) == pv.take(i as int).map_values(|x: Seq<char>| strip_cr(x)),
        decreases n - i,
    {
        let piece = &pieces[i];
        let k = piece.len();
        let mut line: Vec<char> = Vec::new();
        let end = if k > 0 && piece[k - 1] == '\r' { k - 1 } else { k };
        let mut j: usize = 0;
        while j < end
            invariant
                end <= k,
                k == piece@.len(),
                line@ == piece@.take(j as int),
                j <= end,
            decreases end - j,
        {
            line.push(piece[j]);
            assert(piece@.take(j as int + 1) =~= piece@.take(j as int).push(piece@[j as int]));
            j += 1;
        }
        assert(line@ =~= strip_cr(piece@));
        let ghost before = out@;
        let ghost lv = line@;
        assert(piece@ == pv[i as int]);
        out.push(line);
        assert(views(out@) =~= views(before).push(lv));
        assert(pv.take(i as int + 1) =~= pv.take(i as int).push(pv[i as int]));
        assert(views(out@) =~= pv.take(i as int + 1).map_values(|x: Seq<char>| strip_cr(x)));
        i += 1;
    }
    assert(pv.take(i as int) =~= pv.drop_last());
    if pieces[n - 1].len() > 0 {
        let ghost before = out@;
        out.push(pieces[n - 1].clone());
        assert(views(out@) =~= views(before).push(pv.last()));
    }
    out
}

/// `i` is the first position of `c` in `s`.
pub open spec fn is_first_index(s: Seq<char>, c: char, i: int) -> bool {
    &&& 0 <= i < s.len()
    &&& s[i] == c
    &&& forall|j: int| 0 <= j < i ==> s[j] != c
}

/// The first position of `c` in `s`, if any.
pub open spec fn first_index(s: Seq<char>, c: char) -> Option<int> {
    if exists|i: int| is_first_index(s, c, i) {
        Some(choose|i: int| is_first_index(s, c, i))
    } else {
        None
    }
}

/// Without a first position of `c`, `c` does not occur in `s` at all.
pub proof fn lemma_first_index_none(s: Seq<char>, c: char)
    requires
        first_index(s, c) is None,
    ensures
        forall|j: int| 0 <= j < s.len() ==> s[j] != c,
{
    assert forall|j: int| 0 <= j < s.len() implies s[j] != c by {
        lemma_no_occurrence_up_to(s, c, j);
    }
}

proof fn lemma_no_occurrence_up_to(s: Seq<char>, c: char, j: int)
    requires
        first_index(s, c) is None,
        0 <= j < s.len(),
    ensures
        forall|k: int| 0 <= k <= j ==> s[k] != c,
    decreases j,
{
    if j > 0 {
        lemma_no_occurrence_up_to(s, c, j - 1);
    }
    if s[j] == c {
        assert(is_first_index(s, c, j));
    }
}

/// Finds the first position of `c` in `s`.
pub fn find_char(s: &[char], c: char) -> (r: Option<usize>)
    ensures
        match r {
            Some(i) => i < s@.len() && first_index(s@, c) == Some(i as int),
            None => first_index(s@, c) is None && forall|j: int| 0 <= j < s@.len() ==> s@[j] != c,
        },
{
    let mut i: usize = 0;
    while i < s.len()
        invariant
            i <= s@.len(),
            forall|j: int| 0 <= j < i ==> s@[j] != c,
        decreases s@.len() - i,
    {
        if s[i] == c {
            assert(is_first_index(s@, c, i as int));
            proof {
                let k = choose|k: int| is_first_index(s@, c, k);
                assert(k == i as int) by {
                    if k < i as int {
                        assert(s@[k] != c);
                    } else if k > i as int {
                        assert(s@[i as int] != c);
                    }
                }
            }
            return Some(i);
        }
        i += 1;
    }
    None
}

/// `s` split at the first `c` (`str::split_once`).
pub open spec fn split_once(s: Seq<char>, c: char) -> Option<(Seq<char>, Seq<char>)> {
    match first_index(s, c) {
        Some(i) => Some((s.take(i), s.skip(i + 1))),
        None => None,
    }
}

/// A copy of `s[from..to]`.
pub fn slice_chars(s: &[char], from: usize, to: usize) -> (r: Vec<char>)
    requires
        from <= to <= s@.len(),
    ensures
        r@ == s@.subrange(from as int, to as int),
{
    let mut r: Vec<char> = Vec::new();
    let mut k: usize = from;
    while k < to
        invariant
            from <= k <= to,
            to <= s@.len(),
            r@ == s@.subrange(from as int, k as int),
        decreases to - k,
    {
        r.push(s[k]);
        assert(s@.subrange(from as int, k as int + 1) =~= s@.subrange(from as int, k as int).push(
            s@[k as int],
        ));
        k += 1;
    }
    r
}

/// Splits `s` at the first `c`.
pub fn split_once_chars(s: &[char], c: char) -> (r: Option<(Vec<char>, Vec<char>)>)
    ensures
        match r {
            Some((a, b)) => split_once(s@, c) == Some((a@, b@)),
            None => split_once(s@, c) is None,
        },
{
    let len = s.len();
    match find_char(s, c) {
        Some(i) => {
            assert(i < len);
            let a = slice_chars(s, 0, i);
            let b = slice_chars(s, i + 1, s.len());
            assert(a@ =~= s@.take(i as int));
            assert(b@ =~= s@.skip(i as int + 1));
            Some((a, b))
        },
        None => None,
    }
}

/// Whether `s` begins with `p`.
pub open spec fn starts_with(s: Seq<char>, p: Seq<char>) -> bool {
    p.len() <= s.len() && s.take(p.len() as int) == p
}

/// Whether `s` begins with `p`.
pub fn starts_with_chars(s: &[char], p: &[char]) -> (r: bool)
    ensures
        r == starts_with(s@, p@),
{
    if p.len() > s.len() {
        return false;
    }
    let mut i: usize = 0;
    while i < p.len()
        invariant
            p@.len() <= s@.len(),
            i <= p@.len(),
            forall|j: int| 0 <= j < i ==> s@[j] == p@[j],
        decreases p@.len() - i,
    {
        if s[i] != p[i] {
            assert(s@.take(p@.len() as int)[i as int] != p@[i as int]);
            return false;
        }
        i += 1;
    }
    assert(s@.take(p@.len() as int) =~= p@);
    true
}

/// Whether `s` begins with the characters of `p`.
pub fn starts_with_str(s: &[char], p: &str) -> (r: bool)
    ensures
        r == starts_with(s@, p@),
{
    let pv = chars_of(p);
    starts_with_chars(s, pv.as_slice())
}

/// Whether `needle` occurs in `s` at position `i`.
pub open spec fn occurs_at(s: Seq<char>, needle: Seq<char>, i: int) -> bool {
    0 <= i && i + needle.len() <= s.len() && s.subrange(i, i + needle.len()) == needle
}

/// Whether `needle` occurs anywhere in `s` (`str::contains`).
pub open spec fn contains(s: Seq<char>, needle: Seq<char>) -> bool {
    exists|i: int| occurs_at(s, needle, i)
}

/// Whether `needle` occurs in `s`.
pub fn contains_chars(s: &[char], needle: &[char]) -> (r: bool)
    ensures
        r == contains(s@, needle@),
{
    let n = needle.len();
    if n > s.len() {
        assert(forall|i: int| !occurs_at(s@, needle@, i));
        return false;
    }
    let mut i: usize = 0;
    let slen = s.len();
    while i <= s.len() - n
        invariant
            s@.len() == slen,
            n == needle@.len(),
            n <= s@.len(),
            forall|k: int| 0 <= k < i ==> !occurs_at(s@, needle@, k),
        decreases s@.len() - i,
    {
        let mut j: usize = 0;
        let mut ok = true;
        while j < n
            invariant
                s@.len() == slen,
                n == needle@.len(),
                i + n <= s@.len(),
                j <= n,
                ok == (forall|m: int| 0 <= m < j ==> s@[i + m] == needle@[m]),
            decreases n - j,
        {
            assert(i + j < s@.len());
            if s[i + j] != needle[j] {
                ok = false;
            }
            j += 1;
        }
        if ok {
            assert(s@.subrange(i as int, i + n) =~= needle@);
            assert(occurs_at(s@, needle@, i as int));
            return true;
        }
        assert(!occurs_at(s@, needle@, i as int)) by {
            if occurs_at(s@, needle@, i as int) {
                let m = choose|m: int| 0 <= m < n && s@[i + m] != needle@[m];
                assert(s@.subrange(i as int, i + n)[m] == s@[i + m]);
            }
        }
        i += 1;
    }
    assert forall|k: int| !occurs_at(s@, needle@, k) by {
        if k >= i as int {
            assert(k + n > s@.len());
        }
    }
    false
}

/// Whether the characters of `needle` occur in `s`.
pub fn contains_str(s: &[char], needle: &str) -> (r: bool)
    ensures
        r == contains(s@, needle@),
{
    let nv = chars_of(needle);
    contains_chars(s, nv.as_slice())
}

/// `i` is the first position where `needle` occurs in `s`.
pub open spec fn is_first_occurrence(s: Seq<char>, needle: Seq<char>, i: int) -> bool {
    &&& occurs_at(s, needle, i)
    &&& forall|k: int| 0 <= k < i ==> !occurs_at(s, needle, k)
}

/// The first position where `needle` occurs in `s`, if any (`str::find`).
pub open spec fn first_occurrence(s: Seq<char>, needle: Seq<char>) -> Option<int> {
    if exists|i: int| is_first_occurrence(s, needle, i) {
        Some(choose|i: int| is_first_occurrence(s, needle, i))
    } else {
        None
    }
}

/// `s` split around the first occurrence of `pat` (`str::split_once` with a string).
pub open spec fn split_once_str(s: Seq<char>, pat: Seq<char>) -> Option<(Seq<char>, Seq<char>)> {
    match first_occurrence(s, pat) {
        Some(i) => Some((s.take(i), s.skip(i + pat.len()))),
        None => None,
    }
}

proof fn lemma_first_occurrence(s: Seq<char>, needle: Seq<char>, i: int)
    requires
        is_first_occurrence(s, needle, i),
    ensures
        first_occurrence(s, needle) == Some(i),
{
    let k = choose|k: int| is_first_occurrence(s, needle, k);
    assert(k == i) by {
        if k < i {
            assert(!occurs_at(s, needle, k));
        } else if k > i {
            assert(!occurs_at(s, needle, i));
        }
    }
}

/// The first position where `needle` occurs in `s`.
pub fn find_chars(s: &[char], needle: &[char]) -> (r: Option<usize>)
    ensures
        match r {
            Some(i) => first_occurrence(s@, needle@) == Some(i as int),
            None => first_occurrence(s@, needle@) is None,
        },
{
    let n = needle.len();
    if n > s.len() {
        assert(forall|i: int| !occurs_at(s@, needle@, i));
        return None;
    }
    let mut i: usize = 0;
    let slen = s.len();
    while i <= s.len() - n
        invariant
            s@.len() == slen,
            n == needle@.len(),
            n <= s@.len(),
            forall|k: int| 0 <= k < i ==> !occurs_at(s@, needle@, k),
        decreases s@.len() - i,
    {
        let mut j: usize = 0;
        let mut ok = true;
        while j < n
            invariant
                s@.len() == slen,
                n == needle@.len(),
                i + n <= s@.len(),
                j <= n,
                ok == (forall|m: int| 0 <= m < j ==> s@[i + m] == needle@[m]),
            decreases n - j,
        {
            if s[i + j] != needle[j] {
                ok = false;
            }
            j += 1;
        }
        if ok {
            assert(s@.subrange(i as int, i + n) =~= needle@);
            proof {
                lemma_first_occurrence(s@, needle@, i as int);
            }
            return Some(i);
        }
        assert(!occurs_at(s@, needle@, i as int)) by {
            if occurs_at(s@, needle@, i as int) {
                let m = choose|m: int| 0 <= m < n && s@[i + m] != needle@[m];
                assert(s@.subrange(i as int, i + n)[m] == s@[i + m]);
            }
        }
        i += 1;
    }
    assert forall|k: int| !is_first_occurrence(s@, needle@, k) by {
        if k >= i as int {
            assert(k + n > s@.len());
        }
    }
    None
}

/// Splits `s` around the first occurrence of `pat`.
pub fn split_once_str_chars(s: &[char], pat: &[char]) -> (r: Option<(Vec<char>, Vec<char>)>)
    ensures
        match r {
            Some((a, b)) => split_once_str(s@, pat@) == Some((a@, b@)),
            None => split_once_str(s@, pat@) is None,
        },
{
    let slen = s.len();
    let plen = pat.len();
    match find_chars(s, pat) {
        Some(i) => {
            proof {
                let k = choose|k: int| is_first_occurrence(s@, pat@, k);
                assert(k == i as int);
                assert(is_first_occurrence(s@, pat@, i as int));
                assert(i + pat@.len() <= s@.len());
            }
            let a = slice_chars(s, 0, i);
            let b = slice_chars(s, i + plen, slen);
            assert(a@ =~= s@.take(i as int));
            assert(b@ =~= s@.skip(i + pat@.len()));
            Some((a, b))
        },
        None => None,
    }
}

/// `i` is the last position of `c` in `s`.
pub open spec fn is_last_index(s: Seq<char>, c: char, i: int) -> bool {
    &&& 0 <= i < s.len()
    &&& s[i] == c
    &&& forall|j: int| i < j < s.len() ==> s[j] != c
}

/// The last position of `c` in `s`, if any.
pub open spec fn last_index(s: Seq<char>, c: char) -> Option<int> {
    if exists|i: int| is_last_index(s, c, i) {
        Some(choose|i: int| is_last_index(s, c, i))
    } else {
        None
    }
}

/// `s` split at the last `c` (`str::rsplit_once`).
pub open spec fn rsplit_once(s: Seq<char>, c: char) -> Option<(Seq<char>, Seq<char>)> {
    match last_index(s, c) {
        Some(i) => Some((s.take(i), s.skip(i + 1))),
        None => None,
    }
}

/// Splits `s` at the last `c`.
pub fn rsplit_once_chars(s: &[char], c: char) -> (r: Option<(Vec<char>, Vec<char>)>)
    ensures
        match r {
            Some((a, b)) => rsplit_once(s@, c) == Some((a@, b@)),
            None => rsplit_once(s@, c) is None,
        },
{
    let n = s.len();
    let mut i: usize = n;
    while i > 0
        invariant
            i <= n,
            n == s@.len(),
            forall|j: int| i <= j < n ==> s@[j] != c,
        decreases i,
    {
        if s[i - 1] == c {
            let k = i - 1;
            assert(is_last_index(s@, c, k as int));
            proof {
                let m = choose|m: int| is_last_index(s@, c, m);
                assert(m == k as int) by {
                    if m < k as int {
                        assert(s@[k as int] != c);
                    } else if m > k as int {
                        assert(s@[m] != c);
                    }
                }
            }
            let a = slice_chars(s, 0, k);
            let b = slice_chars(s, k + 1, n);
            assert(a@ =~= s@.take(k as int));
            assert(b@ =~= s@.skip(k as int + 1));
            return Some((a, b));
        }
        i -= 1;
    }
    None
}

} // verus!
