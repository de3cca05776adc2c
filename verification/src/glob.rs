//! Title patterns of window rules: `*` stands for any run of characters.
//!
//! Matching is greedy: the star-separated pieces are searched left to right,
//! each at its leftmost occurrence after the previous one.  A pattern that does
//! not start with `*` must match at the start of the value, and one that does
//! not end with `*` must leave nothing of the value after its last piece.

use vstd::prelude::*;

use crate::text::chars_of;

verus! {

/// The pieces between the stars of `p`, empty ones included (as `str::split('*')`).
pub open spec fn split_stars(p: Seq<char>) -> Seq<Seq<char>>
    decreases p.len(),
{
    if p.len() == 0 {
        seq![Seq::<char>::empty()]
    } else {
        let pieces = split_stars(p.drop_last());
        if p.last() == '*' {
            pieces.push(Seq::<char>::empty())
        } else {
            pieces.update(pieces.len() - 1, pieces.last().push(p.last()))
        }
    }
}

/// The nonempty members of `s`, in order.
pub open spec fn nonempty(s: Seq<Seq<char>>) -> Seq<Seq<char>>
    decreases s.len(),
{
    if s.len() == 0 {
        s
    } else if s.last().len() > 0 {
        nonempty(s.drop_last()).push(s.last())
    } else {
        nonempty(s.drop_last())
    }
}

/// `needle` occurs in `hay` at position `k`.
pub open spec fn occurs_at(hay: Seq<char>, needle: Seq<char>, k: int) -> bool {
    0 <= k && k + needle.len() <= hay.len() && hay.subrange(k, k + needle.len()) == needle
}

/// The leftmost position at or after `k` where `needle` occurs in `hay`.
pub open spec fn find_from(hay: Seq<char>, needle: Seq<char>, k: nat) -> Option<nat>
    decreases hay.len() + 1 - k,
{
    if k + needle.len() > hay.len() {
        None
    } else if occurs_at(hay, needle, k as int) {
        Some(k)
    } else {
        find_from(hay, needle, k + 1)
    }
}

/// Searches the pieces in order from `offset`; the result is the offset just past the
/// last piece, or `None` when a piece is missing or an anchored first piece is not at
/// `offset`.
pub open spec fn walk(pieces: Seq<Seq<char>>, value: Seq<char>, offset: nat, anchored: bool) -> Option<
    nat,
>
    decreases pieces.len(),
{
    if pieces.len() == 0 {
        Some(offset)
    } else {
        match find_from(value, pieces[0], offset) {
            None => None,
            Some(found) => if anchored && found != offset {
                None
            } else {
                walk(pieces.drop_first(), value, found + pieces[0].len(), false)
            },
        }
    }
}

/// Whether the title pattern `pattern` accepts `value`.
pub open spec fn glob_accepts(pattern: Seq<char>, value: Seq<char>) -> bool {
    let starts_star = pattern.len() > 0 && pattern[0] == '*';
    let ends_star = pattern.len() > 0 && pattern.last() == '*';
    if pattern.len() == 1 && pattern[0] == '*' {
        true
    } else {
        match walk(nonempty(split_stars(pattern)), value, 0, !starts_star) {
            None => false,
            Some(end) => ends_star || end == value.len(),
        }
    }
}

pub proof fn lemma_nonempty_members(s: Seq<Seq<char>>)
    ensures
        forall|i: int| 0 <= i < nonempty(s).len() ==> #[trigger] nonempty(s)[i].len() > 0,
    decreases s.len(),
{
    if s.len() > 0 {
        lemma_nonempty_members(s.drop_last());
        let prev = nonempty(s.drop_last());
        if s.last().len() > 0 {
            assert forall|i: int| 0 <= i < nonempty(s).len() implies #[trigger] nonempty(s)[i].len()
                > 0 by {
                if i < prev.len() {
                    assert(nonempty(s)[i] == prev[i]);
                }
            }
        }
    }
}

pub proof fn lemma_split_stars_nonempty(p: Seq<char>)
    ensures
        split_stars(p).len() >= 1,
    decreases p.len(),
{
    if p.len() > 0 {
        lemma_split_stars_nonempty(p.drop_last());
    }
}

/// `s` holds no star.
pub open spec fn star_free(s: Seq<char>) -> bool {
    forall|i: int| 0 <= i < s.len() ==> s[i] != '*'
}

pub proof fn lemma_find_from(hay: Seq<char>, needle: Seq<char>, k: nat)
    ensures
        match find_from(hay, needle, k) {
            Some(j) => k <= j && occurs_at(hay, needle, j as int) && forall|t: int|
                k <= t < j ==> !occurs_at(hay, needle, t),
            None => forall|t: int| k <= t ==> !occurs_at(hay, needle, t),
        },
    decreases hay.len() + 1 - k,
{
    if k + needle.len() > hay.len() {
    } else if occurs_at(hay, needle, k as int) {
    } else {
        lemma_find_from(hay, needle, k + 1);
    }
}

proof fn lemma_split_append_star_free(a: Seq<char>, s: Seq<char>)
    requires
        star_free(s),
    ensures
        split_stars(a + s) == split_stars(a).update(
            split_stars(a).len() - 1,
            split_stars(a).last() + s,
        ),
    decreases s.len(),
{
    lemma_split_stars_nonempty(a);
    if s.len() == 0 {
        assert(a + s =~= a);
        assert(split_stars(a).last() + s =~= split_stars(a).last());
        assert(split_stars(a).update(split_stars(a).len() - 1, split_stars(a).last())
            =~= split_stars(a));
    } else {
        let t = s.drop_last();
        lemma_split_append_star_free(a, t);
        assert((a + s).drop_last() =~= a + t);
        assert((a + s).last() == s.last());
        assert(split_stars(a).last() + t + seq![s.last()] =~= split_stars(a).last() + s);
        let base = split_stars(a);
        let mid = base.update(base.len() - 1, base.last() + t);
        assert(mid.last() == base.last() + t);
        assert((base.last() + t).push(s.last()) =~= base.last() + s);
        assert(mid.update(mid.len() - 1, mid.last().push(s.last())) =~= base.update(
            base.len() - 1,
            base.last() + s,
        ));
    }
}

/// A title pattern without stars accepts exactly the title equal to it.
pub proof fn lemma_glob_literal(pattern: Seq<char>, value: Seq<char>)
    requires
        star_free(pattern),
    ensures
        glob_accepts(pattern, value) <==> pattern == value,
{
    lemma_split_append_star_free(Seq::<char>::empty(), pattern);
    assert(Seq::<char>::empty() + pattern =~= pattern);
    assert(split_stars(Seq::<char>::empty()).update(0, Seq::<char>::empty() + pattern) =~= seq![
        pattern,
    ]);
    assert(split_stars(pattern) == seq![pattern]);
    let pieces = nonempty(split_stars(pattern));
    assert(seq![pattern].drop_last() =~= Seq::<Seq<char>>::empty());
    assert(seq![pattern].last() == pattern);
    if pattern.len() == 0 {
        assert(nonempty(seq![pattern]) == nonempty(Seq::<Seq<char>>::empty()));
        assert(pieces =~= Seq::<Seq<char>>::empty());
        assert(walk(pieces, value, 0, true) == Some(0nat));
        if value.len() == 0 {
            assert(pattern =~= value);
        }
    } else {
        assert(pattern[0] != '*');
        assert(pattern.last() != '*');
        assert(nonempty(seq![pattern]) == nonempty(Seq::<Seq<char>>::empty()).push(pattern));
        assert(pieces =~= seq![pattern]);
        lemma_find_from(value, pattern, 0);
        assert(pieces.drop_first() =~= Seq::<Seq<char>>::empty());
        if pattern == value {
            assert(value.subrange(0, pattern.len() as int) =~= value);
            assert(occurs_at(value, pattern, 0));
        }
        if glob_accepts(pattern, value) {
            assert(find_from(value, pattern, 0) == Some(0nat));
            assert(walk(Seq::<Seq<char>>::empty(), value, pattern.len(), false) == Some(
                pattern.len(),
            ));
            assert(walk(pieces, value, 0, true) == Some(pattern.len()));
            assert(value.len() == pattern.len());
            assert(value.subrange(0, pattern.len() as int) == pattern);
            assert(value =~= value.subrange(0, pattern.len() as int));
        }
    }
}

/// `*` accepts every title.
pub proof fn lemma_glob_star(value: Seq<char>)
    ensures
        glob_accepts(seq!['*'], value),
{
}

/// `*text*`, with `text` nonempty and free of stars, accepts exactly the titles that
/// contain `text`.
pub proof fn lemma_glob_contains(text: Seq<char>, value: Seq<char>)
    requires
        star_free(text),
        text.len() > 0,
    ensures
        glob_accepts(seq!['*'] + text + seq!['*'], value) <==> exists|k: int|
            occurs_at(value, text, k),
{
    let star = seq!['*'];
    let pattern = star + text + star;
    assert(star =~= Seq::<char>::empty().push('*'));
    assert(star.drop_last() =~= Seq::<char>::empty());
    assert(star.len() == 1 && star.last() == '*');
    assert(split_stars(Seq::<char>::empty()) == seq![Seq::<char>::empty()]);
    assert(split_stars(star) =~= seq![Seq::<char>::empty(), Seq::<char>::empty()]);
    lemma_split_append_star_free(star, text);
    let front = split_stars(star + text);
    assert(front =~= seq![Seq::<char>::empty(), Seq::<char>::empty() + text]);
    assert(Seq::<char>::empty() + text =~= text);
    assert(pattern.drop_last() =~= star + text);
    assert(pattern.last() == '*');
    assert(split_stars(pattern) =~= seq![Seq::<char>::empty(), text, Seq::<char>::empty()]);
    let all = seq![Seq::<char>::empty(), text, Seq::<char>::empty()];
    assert(all.drop_last() =~= seq![Seq::<char>::empty(), text]);
    assert(all.drop_last().drop_last() =~= seq![Seq::<char>::empty()]);
    assert(seq![Seq::<char>::empty()].drop_last() =~= Seq::<Seq<char>>::empty());
    assert(seq![Seq::<char>::empty()].last() == Seq::<char>::empty());
    assert(nonempty(Seq::<Seq<char>>::empty()) == Seq::<Seq<char>>::empty());
    assert(nonempty(seq![Seq::<char>::empty()]) =~= Seq::<Seq<char>>::empty());
    let two = seq![Seq::<char>::empty(), text];
    assert(two.last() == text && two.drop_last() =~= seq![Seq::<char>::empty()]);
    assert(nonempty(two) == nonempty(seq![Seq::<char>::empty()]).push(text));
    assert(nonempty(two) =~= seq![text]);
    assert(all.last() == Seq::<char>::empty());
    assert(nonempty(all) == nonempty(two));
    assert(nonempty(all) =~= seq![text]);
    assert(pattern[0] == '*');
    assert(!(pattern.len() == 1));
    lemma_find_from(value, text, 0);
    assert(seq![text].drop_first() =~= Seq::<Seq<char>>::empty());
    match find_from(value, text, 0) {
        Some(j) => {
            assert(walk(Seq::<Seq<char>>::empty(), value, j + text.len(), false) == Some(
                j + text.len(),
            ));
            assert(occurs_at(value, text, j as int));
        },
        None => {},
    }
}

pub(crate) fn occurs_at_exec(hay: &Vec<char>, needle: &Vec<char>, k: usize) -> (b: bool)
    requires
        k + needle@.len() <= hay@.len(),
    ensures
        b == occurs_at(hay@, needle@, k as int),
{
    let mut j: usize = 0;
    while j < needle.len()
        invariant
            k + needle@.len() <= hay@.len(),
            hay@.len() == hay.len(),
            j <= needle@.len(),
            forall|t: int| 0 <= t < j ==> hay@[k + t] == needle@[t],
        decreases needle@.len() - j,
    {
        if hay[k + j] != needle[j] {
            assert(hay@.subrange(k as int, k + needle@.len())[j as int] != needle@[j as int]);
            return false;
        }
        j += 1;
    }
    assert(hay@.subrange(k as int, k + needle@.len()) =~= needle@);
    true
}

pub(crate) fn find_from_exec(hay: &Vec<char>, needle: &Vec<char>, from: usize) -> (r: Option<usize>)
    requires
        needle@.len() > 0,
    ensures
        match r {
            Some(k) => find_from(hay@, needle@, from as nat) == Some(k as nat) && k + needle@.len()
                <= hay@.len(),
            None => find_from(hay@, needle@, from as nat) == None::<nat>,
        },
{
    let mut k = from;
    while k <= hay.len() && needle.len() <= hay.len() - k
        invariant
            needle@.len() > 0,
            from <= k,
            find_from(hay@, needle@, from as nat) == find_from(hay@, needle@, k as nat),
        decreases hay@.len() + 1 - k,
    {
        if occurs_at_exec(hay, needle, k) {
            return Some(k);
        }
        k += 1;
    }
    None
}

/// Greedy star-pattern matching of window titles.
pub fn glob_matches(pattern: &str, value: &str) -> (b: bool)
    ensures
        b == glob_accepts(pattern@, value@),
{
    let p = chars_of(pattern);
    let v = chars_of(value);
    if p.len() == 1 && p[0] == '*' {
        return true;
    }
    let anchored_start = !(p.len() > 0 && p[0] == '*');
    let anchored_end = !(p.len() > 0 && p[p.len() - 1] == '*');

    // Split on stars, keeping the nonempty pieces.
    let mut pieces: Vec<Vec<char>> = Vec::new();
    let mut current: Vec<char> = Vec::new();
    let mut i: usize = 0;
    proof {
        assert(p@.take(0) =~= Seq::<char>::empty());
    }
    while i < p.len()
        invariant
            i <= p@.len(),
            split_stars(p@.take(i as int)).len() >= 1,
            pieces@.map_values(|v: Vec<char>| v@) == nonempty(
                split_stars(p@.take(i as int)).drop_last(),
            ),
            current@ == split_stars(p@.take(i as int)).last(),
        decreases p@.len() - i,
    {
        let ghost q = p@.take(i as int);
        let ghost s = split_stars(q);
        assert(p@.take(i + 1).drop_last() =~= q);
        assert(p@.take(i + 1).last() == p@[i as int]);
        if p[i] == '*' {
            assert(split_stars(p@.take(i + 1)) == s.push(Seq::<char>::empty()));
            assert(s.push(Seq::<char>::empty()).drop_last() =~= s);
            assert(s.drop_last().push(s.last()) =~= s);
            if current.len() > 0 {
                let ghost before = pieces@;
                pieces.push(current);
                assert(pieces@.map_values(|v: Vec<char>| v@) =~= before.map_values(
                    |v: Vec<char>| v@,
                ).push(s.last()));
            }
            current = Vec::new();
        } else {
            let ghost after = s.update(s.len() - 1, s.last().push(p@[i as int]));
            assert(split_stars(p@.take(i + 1)) == after);
            assert(after.drop_last() =~= s.drop_last());
            current.push(p[i]);
        }
        i += 1;
    }
    proof {
        assert(p@.take(p@.len() as int) =~= p@);
        let s = split_stars(p@);
        assert(s.drop_last().push(s.last()) =~= s);
    }
    if current.len() > 0 {
        let ghost before = pieces@;
        pieces.push(current);
        assert(pieces@.map_values(|v: Vec<char>| v@) =~= before.map_values(|v: Vec<char>| v@).push(
            split_stars(p@).last(),
        ));
    }
    let ghost all = pieces@.map_values(|v: Vec<char>| v@);
    assert(all == nonempty(split_stars(p@)));
    proof {
        lemma_nonempty_members(split_stars(p@));
        assert(all.skip(0) =~= all);
    }

    // Search the pieces left to right.
    let mut offset: usize = 0;
    let mut index: usize = 0;
    while index < pieces.len()
        invariant
            all == pieces@.map_values(|v: Vec<char>| v@),
            all == nonempty(split_stars(pattern@)),
            p@ == pattern@,
            v@ == value@,
            !(pattern@.len() == 1 && pattern@[0] == '*'),
            anchored_start == !(pattern@.len() > 0 && pattern@[0] == '*'),
            anchored_end == !(pattern@.len() > 0 && pattern@.last() == '*'),
            forall|t: int| 0 <= t < all.len() ==> #[trigger] all[t].len() > 0,
            index <= pieces@.len(),
            offset <= v@.len(),
            walk(all, v@, 0, anchored_start) == walk(
                all.skip(index as int),
                v@,
                offset as nat,
                anchored_start && index == 0,
            ),
        decreases pieces@.len() - index,
    {
        let piece = &pieces[index];
        assert(all.skip(index as int)[0] == piece@);
        assert(all.skip(index as int).drop_first() =~= all.skip(index + 1));
        let ghost rest = all.skip(index as int);
        let ghost anchored = anchored_start && index == 0;
        match find_from_exec(&v, piece, offset) {
            None => {
                assert(walk(rest, v@, offset as nat, anchored) == None::<nat>);
                return false;
            },
            Some(found) => {
                assert(found + piece@.len() <= v@.len());
                if index == 0 && anchored_start && found != offset {
                    assert(walk(rest, v@, offset as nat, anchored) == None::<nat>);
                    return false;
                }
                assert(walk(rest, v@, offset as nat, anchored) == walk(
                    all.skip(index + 1),
                    v@,
                    (found + piece@.len()) as nat,
                    false,
                ));
                assert(found + piece.len() <= v.len());
                offset = found + piece.len();
            },
        }
        index += 1;
    }
    assert(all.skip(index as int) =~= Seq::<Seq<char>>::empty());
    assert(walk(all, v@, 0, anchored_start) == Some(offset as nat));
    !anchored_end || offset == v.len()
}

} // verus!

verus! {

proof fn lemma_last_piece(p: Seq<char>, m: int)
    requires
        0 <= m <= p.len(),
        star_free(p.skip(m)),
        m == 0 || p[m - 1] == '*',
    ensures
        split_stars(p).len() >= 1,
        split_stars(p).last() == p.skip(m),
    decreases p.len() - m,
{
    lemma_split_stars_nonempty(p);
    if p.len() == m {
        assert(p.skip(m) =~= Seq::<char>::empty());
        if m > 0 {
            assert(p.last() == '*');
        }
    } else {
        let q = p.drop_last();
        assert(p.skip(m)[p.len() - 1 - m] == p.last());
        assert(p.last() != '*');
        assert(star_free(q.skip(m))) by {
            assert forall|i: int| 0 <= i < q.skip(m).len() implies q.skip(m)[i] != '*' by {
                assert(q.skip(m)[i] == p.skip(m)[i]);
            }
        }
        if m > 0 {
            assert(q[m - 1] == p[m - 1]);
        }
        lemma_last_piece(q, m);
        lemma_split_stars_nonempty(q);
        assert(q.skip(m).push(p.last()) =~= p.skip(m));
    }
}

proof fn lemma_walk_ends_with_last(pieces: Seq<Seq<char>>, value: Seq<char>, offset: nat, anchored: bool)
    requires
        pieces.len() > 0,
        walk(pieces, value, offset, anchored) is Some,
    ensures
        ({
            let end = walk(pieces, value, offset, anchored)->0;
            let last = pieces.last();
            end >= last.len() && occurs_at(value, last, end - last.len())
        }),
    decreases pieces.len(),
{
    let found = find_from(value, pieces[0], offset)->0;
    lemma_find_from(value, pieces[0], offset);
    if pieces.len() == 1 {
        assert(pieces.drop_first() =~= Seq::<Seq<char>>::empty());
        assert(pieces.last() == pieces[0]);
    } else {
        assert(pieces.drop_first().last() == pieces.last());
        lemma_walk_ends_with_last(pieces.drop_first(), value, found + pieces[0].len(), false);
    }
}

proof fn lemma_walk_starts_with_first(pieces: Seq<Seq<char>>, value: Seq<char>)
    requires
        pieces.len() > 0,
        walk(pieces, value, 0, true) is Some,
    ensures
        occurs_at(value, pieces[0], 0),
{
    lemma_find_from(value, pieces[0], 0);
}

/// A pattern that does not end with `*` leaves nothing of the value after its last
/// piece: every value it accepts ends with the text after the pattern's last star.
pub proof fn lemma_glob_anchored_end(pattern: Seq<char>, value: Seq<char>, m: int)
    requires
        pattern.len() > 0,
        pattern.last() != '*',
        0 <= m < pattern.len(),
        m == 0 || pattern[m - 1] == '*',
        star_free(pattern.skip(m)),
        glob_accepts(pattern, value),
    ensures
        pattern.len() - m <= value.len(),
        value.subrange(value.len() - (pattern.len() - m), value.len() as int) == pattern.skip(m),
{
    lemma_last_piece(pattern, m);
    let all = split_stars(pattern);
    let last = pattern.skip(m);
    assert(last.len() > 0);
    assert(nonempty(all) == nonempty(all.drop_last()).push(all.last()));
    let pieces = nonempty(all);
    assert(pieces.last() == last);
    let starts_star = pattern[0] == '*';
    assert(!(pattern.len() == 1 && pattern[0] == '*'));
    lemma_walk_ends_with_last(pieces, value, 0, !starts_star);
}

/// A pattern that does not start with `*` must match at the start of the value: every
/// value it accepts starts with the text before the pattern's first star.
pub proof fn lemma_glob_anchored_start(pattern: Seq<char>, value: Seq<char>, k: int)
    requires
        pattern.len() > 0,
        pattern[0] != '*',
        0 < k <= pattern.len(),
        k == pattern.len() || pattern[k] == '*',
        star_free(pattern.take(k)),
        glob_accepts(pattern, value),
    ensures
        k <= value.len(),
        value.take(k) == pattern.take(k),
{
    lemma_first_piece(pattern, k);
    let all = split_stars(pattern);
    lemma_nonempty_first(all);
    let pieces = nonempty(all);
    assert(pieces[0] == pattern.take(k));
    lemma_walk_starts_with_first(pieces, value);
    assert(value.subrange(0, k) =~= value.take(k));
}

proof fn lemma_nonempty_first(s: Seq<Seq<char>>)
    requires
        s.len() > 0,
        s[0].len() > 0,
    ensures
        nonempty(s).len() > 0,
        nonempty(s)[0] == s[0],
    decreases s.len(),
{
    if s.len() == 1 {
        assert(s.drop_last() =~= Seq::<Seq<char>>::empty());
        assert(s.last() == s[0]);
    } else {
        assert(s.drop_last()[0] == s[0]);
        lemma_nonempty_first(s.drop_last());
        if s.last().len() > 0 {
            assert(nonempty(s)[0] == nonempty(s.drop_last())[0]);
        }
    }
}

proof fn lemma_first_piece(p: Seq<char>, k: int)
    requires
        0 < k <= p.len(),
        k == p.len() || p[k] == '*',
        star_free(p.take(k)),
    ensures
        split_stars(p).len() >= 1,
        split_stars(p)[0] == p.take(k),
    decreases p.len(),
{
    lemma_split_stars_nonempty(p);
    if p.len() == k {
        assert(p.take(k) =~= p);
        lemma_split_append_star_free(Seq::<char>::empty(), p);
        assert(Seq::<char>::empty() + p =~= p);
        assert(split_stars(Seq::<char>::empty()) == seq![Seq::<char>::empty()]);
        assert(p.take(k) =~= p);
        assert(Seq::<char>::empty() + p =~= p.take(k));
    } else {
        let q = p.drop_last();
        assert(q.take(k) =~= p.take(k));
        if k < q.len() {
            assert(q[k] == p[k]);
        }
        lemma_first_piece(q, k);
        lemma_split_stars_nonempty(q);
        if p.last() == '*' {
            assert(split_stars(p)[0] == split_stars(q)[0]);
        } else {
            assert(k < q.len()) by {
                if k == q.len() {
                    assert(p[k] == p.last());
                }
            }
            assert(q[k] == '*');
            lemma_star_splits(q, k);
            assert(split_stars(p)[0] == split_stars(q)[0]);
        }
    }
}

proof fn lemma_star_splits(q: Seq<char>, j: int)
    requires
        0 <= j < q.len(),
        q[j] == '*',
    ensures
        split_stars(q).len() >= 2,
    decreases q.len(),
{
    lemma_split_stars_nonempty(q.drop_last());
    if q.last() != '*' {
        assert(q.drop_last()[j] == q[j]);
        lemma_star_splits(q.drop_last(), j);
    }
}

} // verus!
