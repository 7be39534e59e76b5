use vstd::prelude::*;

verus! {

/// The elements of `s` whose flag is off, in their order in `s`.
pub open spec fn kept<T>(s: Seq<T>, flags: Seq<bool>) -> Seq<T>
    decreases s.len(),
{
    if s.len() == 0 {
        Seq::empty()
    } else {
        let rest = kept(s.drop_last(), flags);
        if flags[s.len() - 1] {
            rest
        } else {
            rest.push(s.last())
        }
    }
}

/// The elements of `s` whose flag is on, from the last position down to the
/// first: the order in which removal by descending index hands them out.
pub open spec fn taken_desc<T>(s: Seq<T>, flags: Seq<bool>) -> Seq<T>
    decreases s.len(),
{
    if s.len() == 0 {
        Seq::empty()
    } else {
        let rest = taken_desc(s.drop_last(), flags);
        if flags[s.len() - 1] {
            seq![s.last()] + rest
        } else {
            rest
        }
    }
}

/// The positions `0 .. n`.
pub open spec fn positions(n: nat) -> Seq<usize> {
    Seq::new(n, |i: int| i as usize)
}

/// `s` back to front.
pub open spec fn reversed<T>(s: Seq<T>) -> Seq<T>
    decreases s.len(),
{
    if s.len() == 0 {
        Seq::empty()
    } else {
        seq![s.last()] + reversed(s.drop_last())
    }
}

proof fn lemma_split_step<T>(s: Seq<T>, flags: Seq<bool>, i: int)
    requires
        0 < i <= s.len(),
    ensures
        kept(s.take(i), flags) == if flags[i - 1] {
            kept(s.take(i - 1), flags)
        } else {
            kept(s.take(i - 1), flags).push(s[i - 1])
        },
        taken_desc(s.take(i), flags) == if flags[i - 1] {
            seq![s[i - 1]] + taken_desc(s.take(i - 1), flags)
        } else {
            taken_desc(s.take(i - 1), flags)
        },
{
    assert(s.take(i).drop_last() =~= s.take(i - 1));
}

/// Moves the elements of `from` whose flag is on to the end of `to`, taking
/// them by descending position so that the positions still to be taken stay
/// valid; the others stay in `from`, in order.
pub fn migrate<T>(from: &mut Vec<T>, to: &mut Vec<T>, flags: &Vec<bool>)
    requires
        flags@.len() == old(from)@.len(),
    ensures
        final(from)@ == kept(old(from)@, flags@),
        final(to)@ == old(to)@ + taken_desc(old(from)@, flags@),
{
    let ghost s = from@;
    let ghost t0 = to@;
    let ghost n = s.len() as int;
    let mut stay_rev: Vec<T> = Vec::new();
    assert(s.take(n) =~= s);
    assert(to@ =~= t0 + Seq::<T>::empty());
    let mut i: usize = from.len();
    while i > 0
        invariant
            i <= n,
            n == s.len(),
            flags@.len() == n,
            from@ == s.take(i as int),
            to@ + taken_desc(s.take(i as int), flags@) == t0 + taken_desc(s, flags@),
            kept(s, flags@) == kept(s.take(i as int), flags@) + reversed(stay_rev@),
        decreases i,
    {
        proof {
            lemma_split_step(s, flags@, i as int);
        }
        let ghost before = to@;
        let ghost stay_before = stay_rev@;
        let x = from.pop().unwrap();
        assert(x == s[i - 1]);
        assert(from@ =~= s.take(i - 1));
        if flags[i - 1] {
            to.push(x);
            assert(to@ + taken_desc(s.take(i - 1), flags@) =~= before + (seq![x] + taken_desc(
                s.take(i - 1),
                flags@,
            )));
        } else {
            stay_rev.push(x);
            assert(stay_rev@.drop_last() =~= stay_before);
            assert(reversed(stay_rev@) == seq![x] + reversed(stay_before));
            assert(kept(s.take(i - 1), flags@).push(x) + reversed(stay_before) =~= kept(
                s.take(i - 1),
                flags@,
            ) + reversed(stay_rev@));
        }
        i = i - 1;
    }
    assert(s.take(0) =~= Seq::<T>::empty());
    assert(kept(s, flags@) =~= from@ + reversed(stay_rev@));
    assert(to@ =~= t0 + taken_desc(s, flags@));
    while stay_rev.len() > 0
        invariant
            from@ + reversed(stay_rev@) == kept(s, flags@),
        decreases stay_rev.len(),
    {
        let ghost stay_before = stay_rev@;
        let x = stay_rev.pop().unwrap();
        assert(stay_rev@ =~= stay_before.drop_last());
        from.push(x);
        assert(from@ + reversed(stay_rev@) =~= from@.drop_last() + reversed(stay_before));
    }
    assert(from@ =~= from@ + reversed(stay_rev@));
}

/// The positions whose flag is on, from the last down to the first.
pub fn flagged_positions(flags: &Vec<bool>) -> (r: Vec<usize>)
    ensures
        r@ == taken_desc(positions(flags@.len()), flags@),
{
    let ghost all = positions(flags@.len());
    let n = flags.len();
    let mut r: Vec<usize> = Vec::new();
    let mut i: usize = n;
    assert(all.take(n as int) =~= all);
    assert(r@ =~= Seq::<usize>::empty() + Seq::<usize>::empty());
    while i > 0
        invariant
            i <= n,
            n == flags@.len(),
            all == positions(flags@.len()),
            r@ + taken_desc(all.take(i as int), flags@) == taken_desc(all, flags@),
        decreases i,
    {
        proof {
            lemma_split_step(all, flags@, i as int);
        }
        let ghost before = r@;
        if flags[i - 1] {
            r.push(i - 1);
            assert(all[i - 1] == (i - 1) as usize);
            assert(r@ + taken_desc(all.take(i - 1), flags@) =~= before + (seq![all[i - 1]]
                + taken_desc(all.take(i - 1), flags@)));
        }
        i = i - 1;
    }
    assert(all.take(0) =~= Seq::<usize>::empty());
    assert(r@ =~= r@ + taken_desc(all.take(0), flags@));
    r
}


proof fn lemma_split_keeps_multiset<T>(s: Seq<T>, flags: Seq<bool>)
    ensures
        kept(s, flags).to_multiset().add(taken_desc(s, flags).to_multiset()) =~= s.to_multiset(),
    decreases s.len(),
{
    broadcast use vstd::seq_lib::group_to_multiset_ensures;
    broadcast use vstd::seq_lib::lemma_multiset_commutative;
    broadcast use vstd::multiset::group_multiset_axioms;

    if s.len() > 0 {
        let p = s.drop_last();
        lemma_split_keeps_multiset(p, flags);
        assert(s =~= p.push(s.last()));
        assert(seq![s.last()] =~= Seq::<T>::empty().push(s.last()));
    }
}

/// Moving the flagged members of one list to the end of another, as demotion
/// and promotion do between a group's healthy and unhealthy lists, neither
/// loses nor duplicates a member: every value occurs across the two lists as
/// often as before, so a pool that was in exactly one list still is.
pub proof fn lemma_migration_keeps_every_pool<T>(from: Seq<T>, to: Seq<T>, flags: Seq<bool>)
    ensures
        (kept(from, flags) + (to + taken_desc(from, flags))).to_multiset() =~= (from
            + to).to_multiset(),
{
    broadcast use vstd::seq_lib::lemma_multiset_commutative;
    broadcast use vstd::multiset::group_multiset_axioms;

    lemma_split_keeps_multiset(from, flags);
}

} // verus!
