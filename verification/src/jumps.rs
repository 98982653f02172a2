//! The jumplist: the places that were jumped from, and walking them.

use vstd::prelude::*;

verus! {

/// Jumps remembered; the oldest go first.
pub const JUMPLIST_LEN: usize = 100;

/// Places as (buffer, char offset), and where in them the walk is.
pub struct Jumps {
    pub list: Vec<(usize, usize)>,
    pub at: usize,
}

pub struct JumpsView {
    pub list: Seq<(usize, usize)>,
    pub at: usize,
}

impl View for Jumps {
    type V = JumpsView;

    open spec fn view(&self) -> JumpsView {
        JumpsView { list: self.list@, at: self.at }
    }
}

/// A place put at the end, unless it is there already, and the oldest dropped
/// where they are too many.
pub open spec fn noted(list: Seq<(usize, usize)>, p: (usize, usize)) -> Seq<(usize, usize)> {
    let more = if list.len() > 0 && list.last() == p {
        list
    } else {
        list.push(p)
    };
    if more.len() > JUMPLIST_LEN {
        more.skip(1)
    } else {
        more
    }
}

pub open spec fn jumps_wf(j: JumpsView) -> bool {
    j.list.len() <= JUMPLIST_LEN && j.at <= j.list.len()
}

/// A new jump forgets the ones that were walked back past.
pub open spec fn jump_pushed(j: JumpsView, p: (usize, usize)) -> JumpsView {
    let list = noted(j.list.take(j.at as int), p);
    JumpsView { list, at: list.len() as usize }
}

/// The jumps with the present in them, for the walk back to return to.
pub open spec fn left_present(j: JumpsView, here: (usize, usize)) -> JumpsView {
    if j.list.len() > 0 && j.at >= j.list.len() {
        let list = noted(j.list, here);
        JumpsView { list, at: (list.len() - 1) as usize }
    } else {
        j
    }
}

/// One step back: the jumps after it, and the place to go to.
pub open spec fn stepped_back(j: JumpsView, here: (usize, usize)) -> (
    JumpsView,
    Option<(usize, usize)>,
) {
    let p = left_present(j, here);
    if p.list.len() == 0 || p.at == 0 {
        (p, None)
    } else {
        (JumpsView { at: (p.at - 1) as usize, ..p }, Some(p.list[p.at - 1]))
    }
}

/// One step forward.
pub open spec fn stepped_forward(j: JumpsView) -> (JumpsView, Option<(usize, usize)>) {
    if j.at + 1 >= j.list.len() {
        (j, None)
    } else {
        (JumpsView { at: (j.at + 1) as usize, ..j }, Some(j.list[j.at + 1]))
    }
}

impl Jumps {
    pub fn new() -> (r: Self)
        ensures
            r@ == (JumpsView { list: Seq::empty(), at: 0 }),
            jumps_wf(r@),
    {
        let r = Jumps { list: Vec::new(), at: 0 };
        assert(r@.list =~= Seq::empty());
        r
    }

    fn note(&mut self, p: (usize, usize))
        requires
            old(self).list@.len() <= JUMPLIST_LEN,
        ensures
            final(self).list@ == noted(old(self).list@, p),
            final(self).at == old(self).at,
            0 < final(self).list@.len() <= JUMPLIST_LEN,
    {
        let n: usize = self.list.len();
        if !(n > 0 && self.list[n - 1].0 == p.0 && self.list[n - 1].1 == p.1) {
            self.list.push(p);
        }
        if self.list.len() > JUMPLIST_LEN {
            let ghost more = self.list@;
            self.list.remove(0);
            assert(self.list@ =~= more.skip(1));
        }
    }

    /// Remember a place.
    pub fn push(&mut self, p: (usize, usize))
        requires
            jumps_wf(old(self)@),
        ensures
            final(self)@ == jump_pushed(old(self)@, p),
            jumps_wf(final(self)@),
    {
        self.list.truncate(self.at);
        assert(self.list@ =~= old(self).list@.take(old(self).at as int));
        self.note(p);
        self.at = self.list.len();
    }

    /// Step back from `here`.
    pub fn back(&mut self, here: (usize, usize)) -> (r: Option<(usize, usize)>)
        requires
            jumps_wf(old(self)@),
        ensures
            r == stepped_back(old(self)@, here).1,
            final(self)@ == stepped_back(old(self)@, here).0,
            jumps_wf(final(self)@),
    {
        if self.list.len() == 0 {
            return None;
        }
        if self.at >= self.list.len() {
            self.note(here);
            self.at = self.list.len() - 1;
        }
        if self.at == 0 {
            return None;
        }
        self.at -= 1;
        Some(self.list[self.at])
    }

    /// Step forward.
    pub fn forward(&mut self) -> (r: Option<(usize, usize)>)
        requires
            jumps_wf(old(self)@),
        ensures
            r == stepped_forward(old(self)@).1,
            final(self)@ == stepped_forward(old(self)@).0,
            jumps_wf(final(self)@),
    {
        if self.at >= self.list.len() || self.at == self.list.len() - 1 {
            return None;
        }
        self.at += 1;
        Some(self.list[self.at])
    }
}

/// Stepping back from elsewhere comes to the place that was left last, and
/// stepping forward again to where the walk began.
pub proof fn law_back_and_forward(j: JumpsView, left: (usize, usize), here: (usize, usize))
    requires
        jumps_wf(j),
        here != left,
    ensures
        stepped_back(jump_pushed(j, left), here).1 == Some(left),
        stepped_forward(stepped_back(jump_pushed(j, left), here).0).1 == Some(here),
{
    let p = jump_pushed(j, left);
    assert(p.list.last() == left);
    let q = left_present(p, here);
    assert(q.list.last() == here);
}

/// A new jump leaves nothing to step forward to.
pub proof fn law_a_new_jump_is_the_newest(j: JumpsView, p: (usize, usize))
    requires
        jumps_wf(j),
    ensures
        stepped_forward(jump_pushed(j, p)).1 is None,
{
}

} // verus!
