//! The targets of `break` and `continue` in the enclosing loops.
use vstd::prelude::*;

verus! {

struct Ctx {
    break_label: String,
    continue_label: String,
}

/// A stack of loop contexts, innermost last: each holds the label that `break`
/// jumps to and the label that `continue` jumps to.
pub struct JumpContext {
    contexts: Vec<Ctx>,
}

impl JumpContext {
    /// The (break, continue) labels of the enclosing loops, outermost first.
    pub closed spec fn labels(&self) -> Seq<(Seq<char>, Seq<char>)> {
        self.contexts@.map_values(|c: Ctx| (c.break_label@, c.continue_label@))
    }

    pub fn new() -> (r: Self)
        ensures
            r.labels() == Seq::<(Seq<char>, Seq<char>)>::empty(),
    {
        let r = Self { contexts: Vec::new() };
        assert(r.labels() =~= Seq::<(Seq<char>, Seq<char>)>::empty());
        r
    }

    /// Enters a loop whose `break` goes to `break_label` and whose `continue` goes to
    /// `continue_label`.
    pub fn push(&mut self, break_label: &str, continue_label: &str)
        ensures
            final(self).labels() == old(self).labels().push((break_label@, continue_label@)),
    {
        self.contexts.push(Ctx { break_label: break_label.to_owned(), continue_label: continue_label.to_owned() });
        assert(self.labels() =~= old(self).labels().push((break_label@, continue_label@)));
    }

    /// Leaves the innermost loop, if there is one.
    pub fn pop(&mut self)
        ensures
            old(self).labels().len() > 0 ==> final(self).labels() == old(self).labels().drop_last(),
            old(self).labels().len() == 0 ==> final(self).labels() == old(self).labels(),
    {
        self.contexts.pop();
        assert(self.labels() =~= if old(self).labels().len() > 0 {
            old(self).labels().drop_last()
        } else {
            old(self).labels()
        });
    }

    /// The label that `break` jumps to in the innermost loop.
    pub fn lookup_break(&self) -> (r: Option<&str>)
        ensures
            r is Some <==> self.labels().len() > 0,
            r matches Some(l) ==> l@ == self.labels().last().0,
    {
        let n = self.contexts.len();
        if n > 0 {
            return Some(self.contexts[n - 1].break_label.as_str());
        }
        None
    }

    /// The label that `continue` jumps to in the innermost loop.
    pub fn lookup_continue(&self) -> (r: Option<&str>)
        ensures
            r is Some <==> self.labels().len() > 0,
            r matches Some(l) ==> l@ == self.labels().last().1,
    {
        let n = self.contexts.len();
        if n > 0 {
            return Some(self.contexts[n - 1].continue_label.as_str());
        }
        None
    }
}

/// Entering a loop and leaving it again gives back the same contexts.
pub proof fn law_push_then_pop(labels: Seq<(Seq<char>, Seq<char>)>, b: Seq<char>, c: Seq<char>)
    ensures
        labels.push((b, c)).drop_last() == labels,
        labels.push((b, c)).last() == (b, c),
{
    assert(labels.push((b, c)).drop_last() =~= labels);
}

} // verus!
