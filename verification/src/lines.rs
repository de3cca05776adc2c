//! Line, word and white-space handling for the text the X11 tools print,
//! stated as `str::lines`, `str::split_whitespace` and `str::trim` behave.

use vstd::prelude::*;

use crate::glob::{find_from, find_from_exec, lemma_find_from, nonempty, occurs_at};

verus! {

/// `c` is Unicode white space (`char::is_whitespace`).
pub open spec fn is_whitespace(c: char) -> bool {
    ||| '\t' <= c <= '\r'
    ||| c == ' '
    ||| c == '\u{85}'
    ||| c == '\u{a0}'
    ||| c == '\u{1680}'
    ||| '\u{2000}' <= c <= '\u{200a}'
    ||| c == '\u{2028}'
    ||| c == '\u{2029}'
    ||| c == '\u{202f}'
    ||| c == '\u{205f}'
    ||| c == '\u{3000}'
}

/// `s` is empty once surrounding white space is trimmed.
pub open spec fn blank(s: Seq<char>) -> bool {
    forall|i: int| 0 <= i < s.len() ==> is_whitespace(#[trigger] s[i])
}

/// The characters of each vector.
pub open spec fn char_views(v: Seq<Vec<char>>) -> Seq<Seq<char>> {
    v.map_values(|x: Vec<char>| x@)
}

/// The pieces of `s` between occurrences of `c`, empty ones included (`str::split`).
pub open spec fn split_on(s: Seq<char>, c: char) -> Seq<Seq<char>>
    decreases s.len(),
{
    if s.len() == 0 {
        seq![Seq::<char>::empty()]
    } else {
        let pieces = split_on(s.drop_last(), c);
        if s.last() == c {
            pieces.push(Seq::<char>::empty())
        } else {
            pieces.update(pieces.len() - 1, pieces.last().push(s.last()))
        }
    }
}

/// The pieces of `s` between white-space characters, empty ones included.
pub open spec fn split_ws(s: Seq<char>) -> Seq<Seq<char>>
    decreases s.len(),
{
    if s.len() == 0 {
        seq![Seq::<char>::empty()]
    } else {
        let pieces = split_ws(s.drop_last());
        if is_whitespace(s.last()) {
            pieces.push(Seq::<char>::empty())
        } else {
            pieces.update(pieces.len() - 1, pieces.last().push(s.last()))
        }
    }
}

/// The white-space separated words of `s` (`str::split_whitespace`).
pub open spec fn words(s: Seq<char>) -> Seq<Seq<char>> {
    nonempty(split_ws(s))
}

/// A line without the carriage return of a `\r\n` ending.
pub open spec fn strip_cr(p: Seq<char>) -> Seq<char> {
    if p.len() > 0 && p.last() == '\r' {
        p.drop_last()
    } else {
        p
    }
}

/// The lines of `s` (`str::lines`): split at `\n`, a `\r` before the `\n` dropped,
/// and no empty line after a final line ending.
pub open spec fn lines_of(s: Seq<char>) -> Seq<Seq<char>> {
    let parts = split_on(s, '\n');
    let ended = parts.drop_last().map_values(|p: Seq<char>| strip_cr(p));
    if parts.last().len() == 0 {
        ended
    } else {
        ended.push(parts.last())
    }
}

/// `s` without leading white space.
pub open spec fn trim_start(s: Seq<char>) -> Seq<char>
    decreases s.len(),
{
    if s.len() > 0 && is_whitespace(s[0]) {
        trim_start(s.drop_first())
    } else {
        s
    }
}

/// `s` without trailing white space.
pub open spec fn trim_end(s: Seq<char>) -> Seq<char>
    decreases s.len(),
{
    if s.len() > 0 && is_whitespace(s.last()) {
        trim_end(s.drop_last())
    } else {
        s
    }
}

/// `s` without surrounding white space (`str::trim`).
pub open spec fn trim(s: Seq<char>) -> Seq<char> {
    trim_end(trim_start(s))
}

/// `s` begins with `p`.
pub open spec fn starts_with(s: Seq<char>, p: Seq<char>) -> bool {
    p.len() <= s.len() && s.take(p.len() as int) == p
}

/// `p` occurs somewhere in `s`.
pub open spec fn contains_text(s: Seq<char>, p: Seq<char>) -> bool {
    exists|k: int| occurs_at(s, p, k)
}

/// The first position of `c` in `s`.
pub open spec fn first_index(s: Seq<char>, c: char) -> Option<int>
    decreases s.len(),
{
    if s.len() == 0 {
        None
    } else if s[0] == c {
        Some(0)
    } else {
        match first_index(s.drop_first(), c) {
            Some(k) => Some(k + 1),
            None => None,
        }
    }
}

pub proof fn lemma_split_on_nonempty(s: Seq<char>, c: char)
    ensures
        split_on(s, c).len() >= 1,
    decreases s.len(),
{
    if s.len() > 0 {
        lemma_split_on_nonempty(s.drop_last(), c);
    }
}

pub fn is_whitespace_exec(c: char) -> (r: bool)
    ensures
        r == is_whitespace(c),
{
    ('\t' <= c && c <= '\r') || c == ' ' || c == '\u{85}' || c == '\u{a0}' || c == '\u{1680}' || (
    '\u{2000}' <= c && c <= '\u{200a}') || c == '\u{2028}' || c == '\u{2029}' || c == '\u{202f}'
        || c == '\u{205f}' || c == '\u{3000}'
}

pub fn is_blank(cs: &Vec<char>) -> (r: bool)
    ensures
        r == blank(cs@),
{
    let mut i: usize = 0;
    while i < cs.len()
        invariant
            i <= cs@.len(),
            forall|j: int| 0 <= j < i ==> is_whitespace(#[trigger] cs@[j]),
        decreases cs@.len() - i,
    {
        if !is_whitespace_exec(cs[i]) {
            return false;
        }
        i += 1;
    }
    true
}

/// Splits at every `c` (`str::split`).
pub fn split_on_exec(s: &Vec<char>, c: char) -> (r: Vec<Vec<char>>)
    ensures
        char_views(r@) == split_on(s@, c),
{
    let mut done: Vec<Vec<char>> = Vec::new();
    let mut current: Vec<char> = Vec::new();
    let mut i: usize = 0;
    assert(s@.take(0) =~= Seq::<char>::empty());
    while i < s.len()
        invariant
            i <= s@.len(),
            char_views(done@) + seq![current@] == split_on(s@.take(i as int), c),
        decreases s@.len() - i,
    {
        let ghost before = char_views(done@) + seq![current@];
        assert(s@.take(i + 1).drop_last() =~= s@.take(i as int));
        assert(s@.take(i + 1).last() == s@[i as int]);
        if s[i] == c {
            let ghost old_done = done@;
            done.push(current);
            current = Vec::new();
            assert(char_views(done@) =~= char_views(old_done).push(before.last()));
            assert(char_views(done@) + seq![current@] =~= before.push(Seq::<char>::empty()));
        } else {
            current.push(s[i]);
            assert(char_views(done@) + seq![current@] =~= before.update(
                before.len() - 1,
                before.last().push(s@[i as int]),
            ));
        }
        i += 1;
    }
    assert(s@.take(s@.len() as int) =~= s@);
    let ghost old_done = done@;
    done.push(current);
    assert(char_views(done@) =~= char_views(old_done) + seq![current@]);
    done
}

/// The white-space separated words (`str::split_whitespace`).
pub fn words_exec(s: &Vec<char>) -> (r: Vec<Vec<char>>)
    ensures
        char_views(r@) == words(s@),
{
    let mut done: Vec<Vec<char>> = Vec::new();
    let mut current: Vec<char> = Vec::new();
    let mut i: usize = 0;
    assert(s@.take(0) =~= Seq::<char>::empty());
    proof {
        assert(split_ws(Seq::<char>::empty()).drop_last() =~= Seq::<Seq<char>>::empty());
    }
    while i < s.len()
        invariant
            i <= s@.len(),
            split_ws(s@.take(i as int)).len() >= 1,
            char_views(done@) == nonempty(split_ws(s@.take(i as int)).drop_last()),
            current@ == split_ws(s@.take(i as int)).last(),
        decreases s@.len() - i,
    {
        let ghost q = s@.take(i as int);
        let ghost w = split_ws(q);
        assert(s@.take(i + 1).drop_last() =~= q);
        assert(s@.take(i + 1).last() == s@[i as int]);
        if is_whitespace_exec(s[i]) {
            assert(split_ws(s@.take(i + 1)) == w.push(Seq::<char>::empty()));
            assert(w.push(Seq::<char>::empty()).drop_last() =~= w);
            assert(w.drop_last().push(w.last()) =~= w);
            if current.len() > 0 {
                let ghost old_done = done@;
                done.push(current);
                assert(char_views(done@) =~= char_views(old_done).push(w.last()));
            }
            current = Vec::new();
        } else {
            let ghost after = w.update(w.len() - 1, w.last().push(s@[i as int]));
            assert(split_ws(s@.take(i + 1)) == after);
            assert(after.drop_last() =~= w.drop_last());
            current.push(s[i]);
        }
        i += 1;
    }
    proof {
        assert(s@.take(s@.len() as int) =~= s@);
        let w = split_ws(s@);
        assert(w.drop_last().push(w.last()) =~= w);
    }
    if current.len() > 0 {
        let ghost old_done = done@;
        done.push(current);
        assert(char_views(done@) =~= char_views(old_done).push(split_ws(s@).last()));
    }
    done
}

/// The lines of a text (`str::lines`).
pub fn lines_exec(s: &Vec<char>) -> (r: Vec<Vec<char>>)
    ensures
        char_views(r@) == lines_of(s@),
{
    let parts = split_on_exec(s, '\n');
    let ghost pv = char_views(parts@);
    proof {
        lemma_split_on_nonempty(s@, '\n');
    }
    let n = parts.len();
    let mut r: Vec<Vec<char>> = Vec::new();
    let mut i: usize = 0;
    while i + 1 < n
        invariant
            n == parts@.len(),
            pv == char_views(parts@),
            pv.len() >= 1,
            i <= n - 1,
            char_views(r@) == pv.drop_last().take(i as int).map_values(|p: Seq<char>| strip_cr(p)),
        decreases n - i,
    {
        let p = &parts[i];
        let mut line: Vec<char> = Vec::new();
        let keep = if p.len() > 0 && p[p.len() - 1] == '\r' { p.len() - 1 } else { p.len() };
        let mut k: usize = 0;
        while k < keep
            invariant
                keep <= p@.len(),
                k <= keep,
                line@ == p@.take(k as int),
            decreases keep - k,
        {
            line.push(p[k]);
            assert(p@.take(k + 1) =~= p@.take(k as int).push(p@[k as int]));
            k += 1;
        }
        assert(line@ =~= strip_cr(p@));
        let ghost old_r = r@;
        r.push(line);
        assert(pv.drop_last().take(i + 1) =~= pv.drop_last().take(i as int).push(pv[i as int]));
        assert(char_views(r@) =~= char_views(old_r).push(strip_cr(pv[i as int])));
        i += 1;
    }
    assert(pv.drop_last().take(i as int) =~= pv.drop_last());
    let last = &parts[n - 1];
    if last.len() > 0 {
        let mut copy: Vec<char> = Vec::new();
        let mut k: usize = 0;
        while k < last.len()
            invariant
                k <= last@.len(),
                copy@ == last@.take(k as int),
            decreases last@.len() - k,
        {
            copy.push(last[k]);
            assert(last@.take(k + 1) =~= last@.take(k as int).push(last@[k as int]));
            k += 1;
        }
        assert(copy@ =~= last@);
        let ghost old_r = r@;
        r.push(copy);
        assert(char_views(r@) =~= char_views(old_r).push(pv.last()));
    }
    r
}

/// `s` without surrounding white space (`str::trim`).
pub fn trim_exec(s: &Vec<char>) -> (r: Vec<char>)
    ensures
        r@ == trim(s@),
{
    let mut start: usize = 0;
    assert(s@.skip(0) =~= s@);
    while start < s.len() && is_whitespace_exec(s[start])
        invariant
            start <= s@.len(),
            trim_start(s@) == trim_start(s@.skip(start as int)),
        decreases s@.len() - start,
    {
        assert(s@.skip(start as int).drop_first() =~= s@.skip(start + 1));
        start += 1;
    }
    let ghost front = s@.skip(start as int);
    assert(trim_start(front) == front);
    let mut end: usize = s.len();
    assert(front.take(front.len() as int) =~= front);
    while end > start && is_whitespace_exec(s[end - 1])
        invariant
            start <= end <= s@.len(),
            front == s@.skip(start as int),
            trim_end(front) == trim_end(front.take(end - start)),
        decreases end,
    {
        let ghost t = front.take(end - start);
        assert(t.last() == s@[end - 1]);
        assert(t.drop_last() =~= front.take(end - 1 - start));
        end -= 1;
    }
    let ghost kept = front.take(end - start);
    assert(trim_end(kept) == kept);
    let mut r: Vec<char> = Vec::new();
    let mut i = start;
    while i < end
        invariant
            start <= i <= end,
            end <= s@.len(),
            r@ == s@.subrange(start as int, i as int),
        decreases end - i,
    {
        r.push(s[i]);
        assert(s@.subrange(start as int, i + 1) =~= s@.subrange(start as int, i as int).push(
            s@[i as int],
        ));
        i += 1;
    }
    assert(r@ =~= kept);
    r
}

/// Whether `s` begins with `p`.
pub fn starts_with_exec(s: &Vec<char>, p: &Vec<char>) -> (r: bool)
    ensures
        r == starts_with(s@, p@),
{
    if p.len() > s.len() {
        return false;
    }
    let mut i: usize = 0;
    while i < p.len()
        invariant
            p@.len() <= s@.len(),
            i <= p@.len(),
            forall|j: int| 0 <= j < i ==> s@[j] == p@[j],
        decreases p@.len() - i,
    {
        if s[i] != p[i] {
            assert(s@.take(p@.len() as int)[i as int] != p@[i as int]);
            return false;
        }
        i += 1;
    }
    assert(s@.take(p@.len() as int) =~= p@);
    true
}

/// Whether `p` occurs in `s`.
pub fn contains_exec(s: &Vec<char>, p: &Vec<char>) -> (r: bool)
    ensures
        r == contains_text(s@, p@),
{
    if p.len() == 0 {
        assert(occurs_at(s@, p@, 0)) by {
            assert(s@.subrange(0, 0) =~= p@);
        }
        return true;
    }
    proof {
        lemma_find_from(s@, p@, 0);
    }
    match find_from_exec(s, p, 0) {
        Some(_) => true,
        None => false,
    }
}

/// The first position of `c` in `s`.
pub fn first_index_exec(s: &Vec<char>, c: char) -> (r: Option<usize>)
    ensures
        match r {
            Some(k) => k < s@.len() && first_index(s@, c) == Some(k as int),
            None => first_index(s@, c) is None,
        },
{
    let mut i: usize = 0;
    assert(s@.skip(0) =~= s@);
    while i < s.len()
        invariant
            i <= s@.len(),
            forall|j: int| 0 <= j < i ==> s@[j] != c,
            first_index(s@, c) == match first_index(s@.skip(i as int), c) {
                Some(k) => Some(k + i),
                None => None,
            },
        decreases s@.len() - i,
    {
        assert(s@.skip(i as int)[0] == s@[i as int]);
        if s[i] == c {
            return Some(i);
        }
        assert(s@.skip(i as int).drop_first() =~= s@.skip(i + 1));
        i += 1;
    }
    assert(s@.skip(i as int) =~= Seq::<char>::empty());
    None
}

} // verus!
