use vstd::prelude::*;

verus! {

/// A message that may declare how many bytes it writes per resource group.
pub trait ResourceMetered {
    fn get_resource_consumptions(&self) -> Option<Vec<(String, u64)>>;
}

/// The group that a message without a larger declared charge is attributed to.
pub open spec fn default_group() -> Seq<char> {
    seq!['d', 'e', 'f', 'a', 'u', 'l', 't']
}

/// The group with the largest charge among `groups`, with that charge; the
/// first of equal maxima wins, and a list without a positive charge gives the
/// default group.
pub open spec fn dominant_of(groups: Seq<(Seq<char>, u64)>) -> (Seq<char>, u64)
    decreases groups.len(),
{
    if groups.len() == 0 {
        (default_group(), 0)
    } else {
        let prev = dominant_of(groups.drop_last());
        if groups.last().1 > prev.1 {
            groups.last()
        } else {
            prev
        }
    }
}

/// The view of a list of (group, bytes) charges.
pub open spec fn charges_view(v: Seq<(String, u64)>) -> Seq<(Seq<char>, u64)> {
    v.map_values(|c: (String, u64)| (c.0@, c.1))
}

/// Records the resource consumption charged per group, in order.
pub struct ResourceController {
    charges: Vec<(String, u64)>,
}

impl ResourceController {
    /// Every charge made so far, oldest first.
    pub closed spec fn charged(&self) -> Seq<(Seq<char>, u64)> {
        charges_view(self.charges@)
    }

    pub fn new() -> (c: Self)
        ensures
            c.charged() == Seq::<(Seq<char>, u64)>::empty(),
    {
        let c = ResourceController { charges: Vec::new() };
        assert(c.charged() =~= Seq::<(Seq<char>, u64)>::empty());
        c
    }

    /// Charges `bytes` to `group`.
    pub fn consume(&mut self, group: String, bytes: u64)
        ensures
            final(self).charged() == old(self).charged().push((group@, bytes)),
    {
        let ghost g = group@;
        self.charges.push((group, bytes));
        assert(final(self).charged() =~= old(self).charged().push((g, bytes)));
    }

    /// The total charged to `group`, saturating at the largest `u64`.
    pub fn total(&self, group: &String) -> (r: u64)
        ensures
            r == min_total(self.charged(), group@),
    {
        let mut sum: u64 = 0;
        let mut i: usize = 0;
        while i < self.charges.len()
            invariant
                i <= self.charges@.len(),
                sum == min_total(charges_view(self.charges@.take(i as int)), group@),
            decreases self.charges@.len() - i,
        {
            let ghost before = charges_view(self.charges@.take(i as int));
            let ghost after = charges_view(self.charges@.take(i + 1));
            assert(after.drop_last() =~= before);
            if self.charges[i].0.eq(group) {
                sum = sum.saturating_add(self.charges[i].1);
            }
            i = i + 1;
        }
        assert(self.charges@.take(self.charges@.len() as int) =~= self.charges@);
        sum
    }
}

/// The total of the charges to `group`, saturating at the largest `u64`.
pub open spec fn min_total(charges: Seq<(Seq<char>, u64)>, group: Seq<char>) -> u64
    decreases charges.len(),
{
    if charges.len() == 0 {
        0
    } else {
        let prev = min_total(charges.drop_last(), group);
        if charges.last().0 == group {
            if prev + charges.last().1 > u64::MAX {
                u64::MAX
            } else {
                (prev + charges.last().1) as u64
            }
        } else {
            prev
        }
    }
}

/// Charges each of `groups` to `ctl` in order and returns the dominant group,
/// the one with the largest charge.
pub fn charge_groups(groups: Vec<(String, u64)>, ctl: &mut ResourceController) -> (r: String)
    ensures
        final(ctl).charged() == old(ctl).charged() + charges_view(groups@),
        r@ == dominant_of(charges_view(groups@)).0,
{
    let ghost all = charges_view(groups@);
    let mut dominant_group = "default".to_owned();
    let mut max_write_bytes: u64 = 0;
    let mut rest = groups;
    let ghost done: Seq<(Seq<char>, u64)> = Seq::empty();
    proof {
        reveal_strlit("default");
        assert(dominant_group@ =~= default_group());
    }
    while rest.len() > 0
        invariant
            done + charges_view(rest@) == all,
            ctl.charged() == old(ctl).charged() + done,
            (dominant_group@, max_write_bytes) == dominant_of(done),
        decreases rest.len(),
    {
        let ghost old_rest = rest@;
        let (group_name, write_bytes) = rest.remove(0);
        let ghost item = (group_name@, write_bytes);
        proof {
            assert(charges_view(old_rest) =~= seq![item] + charges_view(rest@));
        }
        if write_bytes > max_write_bytes {
            dominant_group = group_name.clone();
            max_write_bytes = write_bytes;
        }
        ctl.consume(group_name, write_bytes);
        proof {
            let nd = done.push(item);
            assert(nd.drop_last() =~= done);
            done = nd;
        }
    }
    assert(done =~= all);
    dominant_group
}

/// The dominant group carries the largest charge of the message: no declared
/// charge exceeds it, and unless every charge is zero it is one of the
/// declared groups, the first that carries that charge.
pub proof fn lemma_dominant_is_max(groups: Seq<(Seq<char>, u64)>)
    ensures
        forall|i: int| 0 <= i < groups.len() ==> #[trigger] groups[i].1 <= dominant_of(groups).1,
        dominant_of(groups).1 == 0 ==> dominant_of(groups).0 == default_group(),
        dominant_of(groups).1 > 0 ==> exists|i: int|
            0 <= i < groups.len() && #[trigger] groups[i] == dominant_of(groups) && forall|
                j: int,
            | 0 <= j < i ==> #[trigger] groups[j].1 < groups[i].1,
    decreases groups.len(),
{
    if groups.len() > 0 {
        let prev = groups.drop_last();
        lemma_dominant_is_max(prev);
        assert forall|i: int| 0 <= i < groups.len() implies #[trigger] groups[i].1 <= dominant_of(
            groups,
        ).1 by {
            if i < prev.len() {
                assert(prev[i] == groups[i]);
            }
        }
        if dominant_of(groups).1 > 0 {
            if groups.last().1 > dominant_of(prev).1 {
                let i = groups.len() - 1;
                assert forall|j: int| 0 <= j < i implies #[trigger] groups[j].1 < groups[i].1 by {
                    assert(prev[j] == groups[j]);
                }
            } else {
                let i = choose|i: int|
                    0 <= i < prev.len() && #[trigger] prev[i] == dominant_of(prev) && forall|j: int|
                        0 <= j < i ==> #[trigger] prev[j].1 < prev[i].1;
                assert(groups[i] == prev[i]);
                assert forall|j: int| 0 <= j < i implies #[trigger] groups[j].1 < groups[i].1 by {
                    assert(prev[j] == groups[j]);
                }
            }
        }
    }
}

} // verus!
