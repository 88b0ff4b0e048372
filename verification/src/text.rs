//! Text as sequences of characters: splitting on a separator, joining with
//! one, and substring search, each with its mathematical meaning.

use vstd::prelude::*;
use vstd::std_specs::iter::IteratorSpec;
use vstd::string::StringExecFns;

verus! {

/// `String::push` appends one character at the end of the string.
pub assume_specification[ String::push ](s: &mut String, ch: char)
    ensures
        final(s)@ == old(s)@.push(ch),
;

/// The texts that a vector of strings holds, in order.
pub open spec fn views(v: Seq<String>) -> Seq<Seq<char>> {
    v.map_values(|s: String| s@)
}

/// `s` holds no `sep`.
pub open spec fn free_of(s: Seq<char>, sep: char) -> bool {
    forall|i: int| 0 <= i < s.len() ==> s[i] != sep
}

/// The parts, with one `sep` between each two neighbours. No parts give the
/// empty text.
pub open spec fn join(parts: Seq<Seq<char>>, sep: char) -> Seq<char>
    decreases parts.len(),
{
    if parts.len() == 0 {
        Seq::empty()
    } else if parts.len() == 1 {
        parts[0]
    } else {
        join(parts.drop_last(), sep).push(sep) + parts.last()
    }
}

/// The pieces of `s` between its occurrences of `sep`: one piece more than
/// there are separators, so the empty text has the one piece that is empty.
pub open spec fn split(s: Seq<char>, sep: char) -> Seq<Seq<char>>
    decreases s.len(),
{
    if s.len() == 0 {
        seq![Seq::empty()]
    } else {
        let before = split(s.drop_last(), sep);
        if s.last() == sep {
            before.push(Seq::empty())
        } else {
            before.drop_last().push(before.last().push(s.last()))
        }
    }
}

/// `needle` occurs in `hay` as a run of neighbouring characters.
pub open spec fn occurs_at(hay: Seq<char>, needle: Seq<char>, i: int) -> bool {
    0 <= i && i + needle.len() <= hay.len() && hay.subrange(i, i + needle.len()) == needle
}

/// `needle` occurs somewhere in `hay`. The empty text occurs in every text.
pub open spec fn contains(hay: Seq<char>, needle: Seq<char>) -> bool {
    exists|i: int| occurs_at(hay, needle, i)
}

/// A split never comes out empty.
pub proof fn lemma_split_nonempty(s: Seq<char>, sep: char)
    ensures
        split(s, sep).len() >= 1,
    decreases s.len(),
{
    if s.len() > 0 {
        lemma_split_nonempty(s.drop_last(), sep);
    }
}

/// No piece of a split holds the separator.
pub proof fn lemma_split_pieces_free(s: Seq<char>, sep: char)
    ensures
        forall|k: int| 0 <= k < split(s, sep).len() ==> free_of(#[trigger] split(s, sep)[k], sep),
    decreases s.len(),
{
    if s.len() > 0 {
        lemma_split_nonempty(s.drop_last(), sep);
        lemma_split_pieces_free(s.drop_last(), sep);
    }
}

/// A piece of a split holds no character that the text does not hold.
pub proof fn lemma_split_pieces_keep_free(s: Seq<char>, sep: char, other: char)
    requires
        free_of(s, other),
    ensures
        forall|k: int|
            0 <= k < split(s, sep).len() ==> free_of(#[trigger] split(s, sep)[k], other),
    decreases s.len(),
{
    if s.len() > 0 {
        let front = s.drop_last();
        assert forall|i: int| 0 <= i < front.len() implies front[i] != other by {}
        lemma_split_nonempty(front, sep);
        lemma_split_pieces_keep_free(front, sep, other);
    }
}

/// Joining the pieces of a split gives the text back.
pub proof fn lemma_join_split(s: Seq<char>, sep: char)
    ensures
        join(split(s, sep), sep) == s,
    decreases s.len(),
{
    if s.len() > 0 {
        let front = s.drop_last();
        let before = split(front, sep);
        lemma_split_nonempty(front, sep);
        lemma_join_split(front, sep);
        if s.last() == sep {
            let parts = before.push(Seq::empty());
            assert(parts.drop_last() =~= before);
        } else {
            let parts = before.drop_last().push(before.last().push(s.last()));
            assert(parts.drop_last() =~= before.drop_last());
            assert(front.push(s.last()) =~= s);
        }
    }
}

/// Text without a separator, put behind `s`, lengthens the last piece.
pub proof fn lemma_split_append_free(s: Seq<char>, t: Seq<char>, sep: char)
    requires
        free_of(t, sep),
    ensures
        split(s, sep).len() >= 1,
        split(s + t, sep) == split(s, sep).drop_last().push(split(s, sep).last() + t),
    decreases t.len(),
{
    lemma_split_nonempty(s, sep);
    let base = split(s, sep);
    if t.len() > 0 {
        let front = t.drop_last();
        lemma_split_append_free(s, front, sep);
        assert((s + t).drop_last() =~= s + front);
        let before = split(s + front, sep);
        assert(before.last().push(t.last()) =~= base.last() + t);
    }
}

/// Splitting what `join` made gives the parts back, where there is at least
/// one part and none holds the separator.
pub proof fn lemma_split_join(parts: Seq<Seq<char>>, sep: char)
    requires
        parts.len() >= 1,
        forall|k: int| 0 <= k < parts.len() ==> free_of(#[trigger] parts[k], sep),
    ensures
        split(join(parts, sep), sep) == parts,
    decreases parts.len(),
{
    let empty = Seq::<char>::empty();
    if parts.len() == 1 {
        lemma_split_append_free(empty, parts[0], sep);
    } else {
        let front = parts.drop_last();
        assert forall|k: int| 0 <= k < front.len() implies free_of(#[trigger] front[k], sep) by {}
        lemma_split_join(front, sep);
        let head = join(front, sep).push(sep);
        assert(head.drop_last() =~= join(front, sep));
        lemma_split_append_free(head, parts.last(), sep);
    }
}

/// A join holds a character other than the separator only where a part
/// holds it.
pub proof fn lemma_join_free_of(parts: Seq<Seq<char>>, sep: char, other: char)
    requires
        other != sep,
        forall|k: int| 0 <= k < parts.len() ==> free_of(#[trigger] parts[k], other),
    ensures
        free_of(join(parts, sep), other),
    decreases parts.len(),
{
    if parts.len() >= 2 {
        let front = parts.drop_last();
        assert forall|k: int| 0 <= k < front.len() implies free_of(#[trigger] front[k], other) by {}
        lemma_join_free_of(front, sep, other);
    }
}

/// The characters of `s`, in order.
pub fn chars_of(s: &str) -> (v: Vec<char>)
    ensures
        v@ == s@,
{
    let mut v: Vec<char> = Vec::new();
    for c in it: s.chars()
        invariant
            v@ == it.seq().take(it.index() as int),
    {
        v.push(c);
    }
    v
}

/// The string made of `v[from..to]`.
pub fn string_of(v: &Vec<char>, from: usize, to: usize) -> (s: String)
    requires
        from <= to <= v.len(),
    ensures
        s@ == v@.subrange(from as int, to as int),
{
    let mut s = String::new();
    let mut i: usize = from;
    while i < to
        invariant
            from <= i <= to <= v.len(),
            s@ == v@.subrange(from as int, i as int),
        decreases to - i,
    {
        s.push(v[i]);
        i = i + 1;
    }
    s
}

/// Whether `a` reads exactly as `b` does.
pub fn same_text(a: &str, b: &str) -> (r: bool)
    ensures
        r == (a@ == b@),
{
    let x = a.to_owned();
    let y = b.to_owned();
    x == y
}

/// Whether `s` holds no `sep`.
pub fn is_free_of(s: &str, sep: char) -> (r: bool)
    ensures
        r == free_of(s@, sep),
{
    let mut free = true;
    for c in it: s.chars()
        invariant
            it.seq() == s@,
            free == free_of(s@.take(it.index() as int), sep),
    {
        let ghost read = s@.take(it.index() as int);
        let ghost next = s@.take(it.index() as int + 1);
        proof {
            if free_of(next, sep) {
                assert forall|i: int| 0 <= i < read.len() implies read[i] != sep by {
                    assert(read[i] == next[i]);
                }
                assert(next[it.index() as int] != sep);
            }
            if free_of(read, sep) && c != sep {
                assert forall|i: int| 0 <= i < next.len() implies next[i] != sep by {
                    if i < read.len() {
                        assert(next[i] == read[i]);
                    }
                }
            }
        }
        if c == sep {
            free = false;
        }
    }
    assert(s@.take(s@.len() as int) =~= s@);
    free
}

/// Cuts `s` at every `sep`: the pieces hold no `sep`, and joined with
/// `sep` they give `s` back.
pub fn split_on(s: &str, sep: char) -> (parts: Vec<String>)
    ensures
        views(parts@) == split(s@, sep),
        parts.len() >= 1,
        forall|k: int| 0 <= k < parts.len() ==> free_of(#[trigger] views(parts@)[k], sep),
        join(views(parts@), sep) == s@,
{
    proof {
        lemma_split_pieces_free(s@, sep);
        lemma_join_split(s@, sep);
    }
    let mut done: Vec<String> = Vec::new();
    let mut piece = String::new();
    for c in it: s.chars()
        invariant
            it.seq() == s@,
            views(done@).push(piece@) == split(s@.take(it.index() as int), sep),
    {
        let ghost read = s@.take(it.index() as int);
        let ghost next = s@.take(it.index() as int + 1);
        assert(next.drop_last() =~= read);
        if c == sep {
            done.push(piece);
            piece = String::new();
        } else {
            piece.push(c);
        }
    }
    assert(s@.take(s@.len() as int) =~= s@);
    done.push(piece);
    done
}

/// Puts the parts together with one `sep` between each two neighbours.
pub fn join_with(parts: &Vec<String>, sep: char) -> (s: String)
    ensures
        s@ == join(views(parts@), sep),
{
    let mut s = String::new();
    let mut i: usize = 0;
    while i < parts.len()
        invariant
            i <= parts.len(),
            s@ == join(views(parts@).take(i as int), sep),
        decreases parts.len() - i,
    {
        let ghost done = views(parts@).take(i as int);
        let ghost next = views(parts@).take(i + 1);
        assert(next.drop_last() =~= done);
        if i > 0 {
            s.push(sep);
        }
        s.append(parts[i].as_str());
        i = i + 1;
    }
    assert(views(parts@).take(parts.len() as int) =~= views(parts@));
    s
}

/// Whether `needle` stands in `hay` at position `at`.
fn matches_at(hay: &Vec<char>, needle: &Vec<char>, at: usize) -> (r: bool)
    requires
        at + needle.len() <= hay.len(),
    ensures
        r == occurs_at(hay@, needle@, at as int),
{
    let mut k: usize = 0;
    while k < needle.len()
        invariant
            k <= needle.len(),
            at + needle.len() <= hay.len(),
            forall|j: int| 0 <= j < k ==> hay@[at + j] == needle@[j],
        decreases needle.len() - k,
    {
        if hay[at + k] != needle[k] {
            proof {
                let window = hay@.subrange(at as int, at + needle.len());
                assert(window[k as int] != needle@[k as int]);
            }
            return false;
        }
        k = k + 1;
    }
    assert(hay@.subrange(at as int, at + needle.len()) =~= needle@);
    true
}

/// Whether `needle` occurs in `hay`, compared character by character.
pub fn has_substring(hay: &str, needle: &str) -> (r: bool)
    ensures
        r == contains(hay@, needle@),
{
    let h = chars_of(hay);
    let n = chars_of(needle);
    if n.len() > h.len() {
        return false;
    }
    let last: usize = h.len() - n.len();
    let mut at: usize = 0;
    loop
        invariant
            at <= last,
            last == h.len() - n.len(),
            n.len() <= h.len(),
            h@ == hay@,
            n@ == needle@,
            forall|j: int| 0 <= j < at ==> !occurs_at(h@, n@, j),
        decreases last - at,
    {
        if matches_at(&h, &n, at) {
            return true;
        }
        if at == last {
            return false;
        }
        at = at + 1;
    }
}

} // verus!
