use vstd::prelude::*;

verus! {

/// True when `sep` does not occur in `s`.
pub open spec fn lacks(s: Seq<u8>, sep: u8) -> bool {
    forall|j: int| 0 <= j < s.len() ==> s[j] != sep
}

/// The pieces of `s` between the occurrences of `sep`, in order: what `split`
/// yields on a string. There is always at least one piece; `sep` at either end
/// gives an empty piece there.
pub open spec fn split_bytes(s: Seq<u8>, sep: u8) -> Seq<Seq<u8>>
    decreases s.len(),
{
    if s.len() == 0 {
        seq![Seq::empty()]
    } else {
        let init = split_bytes(s.drop_last(), sep);
        if s.last() == sep {
            init.push(Seq::empty())
        } else {
            init.update(init.len() - 1, init.last().push(s.last()))
        }
    }
}

/// The pieces joined again, with `sep` between each two of them.
pub open spec fn join_bytes(parts: Seq<Seq<u8>>, sep: u8) -> Seq<u8>
    decreases parts.len(),
{
    if parts.len() == 0 {
        Seq::empty()
    } else if parts.len() == 1 {
        parts[0]
    } else {
        join_bytes(parts.drop_last(), sep) + seq![sep] + parts.last()
    }
}

/// Splitting always yields at least one piece.
pub proof fn lemma_split_nonempty(s: Seq<u8>, sep: u8)
    ensures
        split_bytes(s, sep).len() >= 1,
    decreases s.len(),
{
    if s.len() > 0 {
        lemma_split_nonempty(s.drop_last(), sep);
    }
}

/// A sequence without the separator is one piece.
pub proof fn lemma_split_lacking(s: Seq<u8>, sep: u8)
    requires
        lacks(s, sep),
    ensures
        split_bytes(s, sep) == seq![s],
    decreases s.len(),
{
    if s.len() > 0 {
        let d = s.drop_last();
        assert(lacks(d, sep)) by {
            assert forall|j: int| 0 <= j < d.len() implies d[j] != sep by {
                assert(d[j] == s[j]);
            }
        }
        lemma_split_lacking(d, sep);
        assert(s.last() == s[s.len() - 1]);
        assert(d.push(s.last()) =~= s);
    } else {
        assert(s =~= Seq::<u8>::empty());
    }
}

/// Up to the first separator comes the first piece; the rest is split on its own.
pub proof fn lemma_split_cons(a: Seq<u8>, b: Seq<u8>, sep: u8)
    requires
        lacks(a, sep),
    ensures
        split_bytes(a + seq![sep] + b, sep) == seq![a] + split_bytes(b, sep),
    decreases b.len(),
{
    let s = a + seq![sep] + b;
    if b.len() == 0 {
        assert(s.drop_last() =~= a);
        lemma_split_lacking(a, sep);
        assert(seq![a].push(Seq::<u8>::empty()) =~= seq![a] + split_bytes(b, sep));
    } else {
        assert(s.drop_last() =~= a + seq![sep] + b.drop_last());
        lemma_split_cons(a, b.drop_last(), sep);
        lemma_split_nonempty(b.drop_last(), sep);
        let x = split_bytes(b.drop_last(), sep);
        if b.last() == sep {
            assert((seq![a] + x).push(Seq::<u8>::empty()) =~= seq![a] + x.push(Seq::<u8>::empty()));
        } else {
            assert((seq![a] + x).update(x.len() as int, x.last().push(b.last())) =~= seq![a]
                + x.update(x.len() - 1, x.last().push(b.last())));
        }
    }
}

/// Joining the pieces gives back what was split.
pub proof fn lemma_join_split(s: Seq<u8>, sep: u8)
    ensures
        join_bytes(split_bytes(s, sep), sep) == s,
    decreases s.len(),
{
    if s.len() > 0 {
        let d = s.drop_last();
        lemma_join_split(d, sep);
        lemma_split_nonempty(d, sep);
        let x = split_bytes(d, sep);
        if s.last() == sep {
            let y = x.push(Seq::<u8>::empty());
            assert(y.drop_last() =~= x);
            assert(d + seq![sep] + Seq::<u8>::empty() =~= s);
        } else {
            let y = x.update(x.len() - 1, x.last().push(s.last()));
            if x.len() == 1 {
                assert(x.last() =~= d);
                assert(d.push(s.last()) =~= s);
            } else {
                assert(y.drop_last() =~= x.drop_last());
                assert(join_bytes(x, sep) == join_bytes(x.drop_last(), sep) + seq![sep] + x.last());
                let a = join_bytes(x.drop_last(), sep);
                assert(a + seq![sep] + x.last().push(s.last()) =~= (a + seq![sep] + x.last()).push(s.last()));
                assert(d.push(s.last()) =~= s);
            }
        }
    }
}

/// No piece holds the separator.
pub proof fn lemma_split_pieces_lack(s: Seq<u8>, sep: u8)
    ensures
        forall|i: int| 0 <= i < split_bytes(s, sep).len() ==> lacks(#[trigger] split_bytes(s, sep)[i], sep),
    decreases s.len(),
{
    if s.len() > 0 {
        lemma_split_pieces_lack(s.drop_last(), sep);
        lemma_split_nonempty(s.drop_last(), sep);
    }
}

} // verus!
