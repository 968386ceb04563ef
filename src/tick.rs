use vstd::prelude::*;

use crate::util::CallbackResponse;

verus! {

/// Something that is ticked once per step until it asks to stop.
pub trait Tickable {
    /// Whether the object, in its present state, asks to be ticked again.
    spec fn continues(&self) -> bool;

    fn tick(&self) -> (r: CallbackResponse)
        ensures
            (r == CallbackResponse::Continue) == self.continues(),
    ;
}

/// For each object of `s`, whether it asks to be ticked again.
pub open spec fn answers<T: Tickable>(s: Seq<T>) -> Seq<bool> {
    Seq::new(s.len(), |i: int| s[i].continues())
}

/// The entries of `s` whose flag in `keep` is set, in their order.
pub open spec fn kept<T>(s: Seq<T>, keep: Seq<bool>) -> Seq<T>
    decreases s.len(),
{
    if s.len() == 0 || keep.len() == 0 {
        Seq::empty()
    } else {
        let rest = kept(s.drop_last(), keep.drop_last());
        if keep.last() {
            rest.push(s.last())
        } else {
            rest
        }
    }
}

/// Keeps the entries of `data` whose flag in `keep` is set, in their order.
fn retain_flagged<T>(data: Vec<T>, keep: &Vec<bool>) -> (r: Vec<T>)
    requires
        keep@.len() == data@.len(),
    ensures
        r@ == kept(data@, keep@),
{
    let ghost all = data@;
    let total = data.len();
    let mut rest = data;
    let mut out: Vec<T> = Vec::new();
    let mut i: usize = 0;
    while rest.len() > 0
        invariant
            keep@.len() == all.len(),
            all.len() == total,
            i + rest@.len() == all.len(),
            rest@ == all.subrange(i as int, all.len() as int),
            out@ == kept(all.subrange(0, i as int), keep@.subrange(0, i as int)),
        decreases rest@.len(),
    {
        let item = rest.remove(0);
        proof {
            assert(i + 1 <= all.len());
            let a = all.subrange(0, i + 1);
            let k = keep@.subrange(0, i + 1);
            assert(a.drop_last() =~= all.subrange(0, i as int));
            assert(k.drop_last() =~= keep@.subrange(0, i as int));
            assert(a.last() == item);
        }
        if keep[i] {
            out.push(item);
        }
        i = i + 1;
        proof {
            assert(rest@ =~= all.subrange(i as int, all.len() as int));
        }
    }
    proof {
        assert(all.subrange(0, i as int) =~= all);
        assert(keep@.subrange(0, i as int) =~= keep@);
    }
    out
}

/// The objects that are ticked each step.
pub struct TickHandler<T: Tickable> {
    pub data: Vec<T>,
}

impl<T: Tickable> TickHandler<T> {
    pub fn new() -> (r: TickHandler<T>)
        ensures
            r.data@ == Seq::<T>::empty(),
    {
        TickHandler { data: Vec::new() }
    }

    /// Ticks every object once, in order, and drops those that answered `Stop`; the others
    /// stay, in their order.
    pub fn tick(&mut self)
        ensures
            final(self).data@ == kept(old(self).data@, answers(old(self).data@)),
    {
        let mut keep: Vec<bool> = Vec::new();
        let mut i: usize = 0;
        while i < self.data.len()
            invariant
                i <= self.data.len(),
                keep@.len() == i,
                forall|j: int| 0 <= j < i ==> keep@[j] == self.data@[j].continues(),
            decreases self.data.len() - i,
        {
            let answer = self.data[i].tick();
            keep.push(
                match answer {
                    CallbackResponse::Continue => true,
                    CallbackResponse::Stop => false,
                },
            );
            i = i + 1;
        }
        proof {
            assert(keep@ =~= answers(self.data@));
        }
        let mut data: Vec<T> = Vec::new();
        std::mem::swap(&mut data, &mut self.data);
        self.data = retain_flagged(data, &keep);
    }

    /// Schedules `tickable` after the objects already scheduled.
    pub fn add_tickable(&mut self, tickable: T)
        ensures
            final(self).data@ == old(self).data@.push(tickable),
    {
        self.data.push(tickable);
    }
}

} // verus!
