//! Byte-level text model: prefixes, substrings and the line structure of a
//! text, as `str::lines` splits it.

use vstd::prelude::*;

verus! {

/// The newline byte `\n`.
pub const NL: u8 = 10;

/// The carriage-return byte `\r`.
pub const CR: u8 = 13;

/// `p` is a prefix of `s`.
pub open spec fn starts_with(s: Seq<u8>, p: Seq<u8>) -> bool {
    p.len() <= s.len() && s.take(p.len() as int) =~= p
}

/// `p` occurs in `s` at position `i`.
pub open spec fn occurs_at(s: Seq<u8>, p: Seq<u8>, i: int) -> bool {
    0 <= i && i + p.len() <= s.len() && s.subrange(i, i + p.len()) =~= p
}

/// `p` occurs somewhere in `s` (the empty sequence occurs in every `s`).
pub open spec fn contains(s: Seq<u8>, p: Seq<u8>) -> bool {
    exists|i: int| #[trigger] occurs_at(s, p, i)
}

/// `b` does not occur in `s`.
pub open spec fn free_of(s: Seq<u8>, b: u8) -> bool {
    forall|j: int| 0 <= j < s.len() ==> s[j] != b
}

/// `i` is the position of the first `b` in `s`.
pub open spec fn is_first(s: Seq<u8>, b: u8, i: int) -> bool {
    &&& 0 <= i < s.len()
    &&& s[i] == b
    &&& free_of(s.take(i), b)
}

/// Drops one trailing `\r`, as `str::lines` does before a `\n`.
pub open spec fn strip_cr(l: Seq<u8>) -> Seq<u8> {
    if l.len() > 0 && l.last() == CR {
        l.drop_last()
    } else {
        l
    }
}

/// The lines of `s`, as `str::lines` yields them: split after each `\n`,
/// the `\n` dropped together with one `\r` before it; a last line without
/// `\n` is kept as it is; no line follows a final `\n`.
pub open spec fn lines(s: Seq<u8>) -> Seq<Seq<u8>>
    decreases s.len(),
{
    if s.len() == 0 {
        Seq::empty()
    } else if exists|i: int| is_first(s, NL, i) {
        let i = choose|i: int| is_first(s, NL, i);
        seq![strip_cr(s.take(i))] + lines(s.skip(i + 1))
    } else {
        seq![s]
    }
}

/// The first position of `b` is unique.
pub proof fn lemma_first_unique(s: Seq<u8>, b: u8, i: int, j: int)
    requires
        is_first(s, b, i),
        is_first(s, b, j),
    ensures
        i == j,
{
    if i < j {
        assert(s.take(j)[i] == s[i]);
    } else if j < i {
        assert(s.take(i)[j] == s[j]);
    }
}

/// A sequence that holds `b` has a first `b`.
pub proof fn lemma_first_exists(s: Seq<u8>, b: u8, k: int)
    requires
        0 <= k < s.len(),
        s[k] == b,
    ensures
        exists|i: int| is_first(s, b, i),
    decreases k,
{
    if free_of(s.take(k), b) {
        assert(is_first(s, b, k));
    } else {
        let j = choose|j: int| 0 <= j < s.take(k).len() && s.take(k)[j] == b;
        lemma_first_exists(s, b, j);
    }
}

/// One step of `lines`: a line free of `\n`, then `\n`, then the rest.
pub proof fn lemma_lines_cons(x: Seq<u8>, r: Seq<u8>)
    requires
        free_of(x, NL),
    ensures
        lines(x + seq![NL] + r) =~= seq![strip_cr(x)] + lines(r),
{
    let s = x + seq![NL] + r;
    assert(s.take(x.len() as int) =~= x);
    assert(is_first(s, NL, x.len() as int));
    let i = choose|i: int| is_first(s, NL, i);
    lemma_first_unique(s, NL, i, x.len() as int);
    assert(s.skip(x.len() as int + 1) =~= r);
}

/// No line of `s` holds a `\n`.
pub proof fn lemma_lines_free_of_nl(s: Seq<u8>)
    ensures
        forall|k: int| 0 <= k < lines(s).len() ==> free_of(#[trigger] lines(s)[k], NL),
    decreases s.len(),
{
    if s.len() == 0 {
    } else if exists|i: int| is_first(s, NL, i) {
        let i = choose|i: int| is_first(s, NL, i);
        lemma_lines_free_of_nl(s.skip(i + 1));
        let head = strip_cr(s.take(i));
        assert forall|j: int| 0 <= j < head.len() implies head[j] != NL by {
            assert(head[j] == s.take(i)[j]);
        }
        assert forall|k: int| 0 <= k < lines(s).len() implies free_of(#[trigger] lines(s)[k], NL) by {
            if k > 0 {
                assert(lines(s)[k] == lines(s.skip(i + 1))[k - 1]);
            }
        }
    } else {
        assert forall|j: int| 0 <= j < s.len() implies s[j] != NL by {
            if s[j] == NL {
                lemma_first_exists(s, NL, j);
            }
        }
    }
}

/// Lines of two texts joined where the first ends with a complete line.
pub proof fn lemma_lines_append(s: Seq<u8>, t: Seq<u8>)
    requires
        s.len() == 0 || s.last() == NL,
    ensures
        lines(s + t) =~= lines(s) + lines(t),
    decreases s.len(),
{
    if s.len() == 0 {
        assert(s + t =~= t);
    } else {
        lemma_first_exists(s, NL, s.len() - 1);
        let i = choose|i: int| is_first(s, NL, i);
        let st = s + t;
        assert(st.take(i) =~= s.take(i));
        assert(is_first(st, NL, i));
        let k = choose|k: int| is_first(st, NL, k);
        lemma_first_unique(st, NL, i, k);
        assert(st.skip(i + 1) =~= s.skip(i + 1) + t);
        lemma_lines_append(s.skip(i + 1), t);
    }
}

/// Position of the first `b` in `s[from..]`, counted from the start of `s`.
pub fn find_byte_from(s: &[u8], from: usize, b: u8) -> (r: Option<usize>)
    requires
        from <= s@.len(),
    ensures
        match r {
            Some(k) => from <= k < s@.len() && is_first(s@.skip(from as int), b, k - from),
            None => free_of(s@.skip(from as int), b),
        },
{
    let mut k: usize = from;
    while k < s.len()
        invariant
            from <= k <= s@.len(),
            forall|m: int| from <= m < k ==> s@[m] != b,
        decreases s@.len() - k,
    {
        if s[k] == b {
            let ghost rest = s@.skip(from as int);
            assert(free_of(rest.take(k - from), b)) by {
                assert forall|m: int| 0 <= m < k - from implies #[trigger] rest.take(k - from)[m] != b by {
                    assert(rest.take(k - from)[m] == s@[from + m]);
                }
            }
            return Some(k);
        }
        k = k + 1;
    }
    assert forall|m: int| 0 <= m < s@.skip(from as int).len() implies s@.skip(from as int)[m] != b by {
        assert(s@.skip(from as int)[m] == s@[from + m]);
    }
    None
}

/// The line that starts at `pos`: it spans `s[pos..end]` and the next one
/// starts at `next`.
pub fn next_line(s: &[u8], pos: usize) -> (r: (usize, usize))
    requires
        pos < s@.len(),
    ensures
        pos <= r.0 <= r.1 <= s@.len(),
        pos < r.1,
        lines(s@.skip(pos as int)) =~= seq![s@.subrange(pos as int, r.0 as int)] + lines(
            s@.skip(r.1 as int),
        ),
{
    let ghost rest = s@.skip(pos as int);
    match find_byte_from(s, pos, NL) {
        Some(k) => {
            assert(k < s.len());
            let end = if k > pos && s[k - 1] == CR {
                k - 1
            } else {
                k
            };
            proof {
                let i = choose|i: int| is_first(rest, NL, i);
                lemma_first_unique(rest, NL, i, k - pos);
                assert(rest.skip(k - pos + 1) =~= s@.skip(k + 1));
                assert(strip_cr(rest.take(k - pos)) =~= s@.subrange(pos as int, end as int));
            }
            (end, k + 1)
        },
        None => {
            proof {
                if exists|i: int| is_first(rest, NL, i) {
                    let i = choose|i: int| is_first(rest, NL, i);
                    assert(rest[i] == NL);
                }
                assert(rest =~= s@.subrange(pos as int, s@.len() as int));
                assert(s@.skip(s@.len() as int) =~= Seq::<u8>::empty());
            }
            (s.len(), s.len())
        },
    }
}


/// Appends `s[from..to]` to `out`.
pub fn push_range(out: &mut Vec<u8>, s: &[u8], from: usize, to: usize)
    requires
        from <= to <= s@.len(),
    ensures
        final(out)@ =~= old(out)@ + s@.subrange(from as int, to as int),
{
    let mut k: usize = from;
    while k < to
        invariant
            from <= k <= to <= s@.len(),
            out@ =~= old(out)@ + s@.subrange(from as int, k as int),
        decreases to - k,
    {
        out.push(s[k]);
        k = k + 1;
    }
}

/// Appends all of `s` to `out`.
pub fn push_all(out: &mut Vec<u8>, s: &[u8])
    ensures
        final(out)@ =~= old(out)@ + s@,
{
    push_range(out, s, 0, s.len());
    assert(s@.subrange(0, s@.len() as int) =~= s@);
}

/// Whether `p` is a prefix of `s[from..]`.
pub fn starts_with_at(s: &[u8], from: usize, p: &[u8]) -> (r: bool)
    requires
        from <= s@.len(),
    ensures
        r == starts_with(s@.skip(from as int), p@),
{
    let ghost rest = s@.skip(from as int);
    if p.len() > s.len() - from {
        return false;
    }
    let mut j: usize = 0;
    while j < p.len()
        invariant
            from <= s@.len(),
            p@.len() <= s@.len() - from,
            j <= p@.len(),
            rest == s@.skip(from as int),
            forall|m: int| 0 <= m < j ==> s@[from + m] == p@[m],
        decreases p@.len() - j,
    {
        assert(from + j < s.len());
        if s[from + j] != p[j] {
            assert(rest.take(p@.len() as int)[j as int] == s@[from + j]);
            return false;
        }
        j = j + 1;
    }
    assert(rest.take(p@.len() as int) =~= p@);
    true
}

/// Whether `p` occurs in `s`.
pub fn contains_bytes(s: &[u8], p: &[u8]) -> (r: bool)
    ensures
        r == contains(s@, p@),
{
    if p.len() > s.len() {
        assert forall|i: int| !occurs_at(s@, p@, i) by {}
        return false;
    }
    let last = s.len() - p.len();
    let mut i: usize = 0;
    while i < last
        invariant
            last == s@.len() - p@.len(),
            i <= last,
            forall|m: int| 0 <= m < i ==> !occurs_at(s@, p@, m),
        decreases last - i,
    {
        assert(s@.subrange(i as int, i + p@.len()) =~= s@.skip(i as int).take(p@.len() as int));
        if starts_with_at(s, i, p) {
            assert(occurs_at(s@, p@, i as int));
            return true;
        }
        i = i + 1;
    }
    assert(s@.subrange(last as int, last + p@.len()) =~= s@.skip(last as int).take(p@.len() as int));
    if starts_with_at(s, last, p) {
        assert(occurs_at(s@, p@, last as int));
        return true;
    }
    assert forall|m: int| !occurs_at(s@, p@, m) by {
        if 0 <= m && m < last {
        }
    }
    false
}

} // verus!
