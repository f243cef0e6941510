//! Channels that announcements are sent through.
use vstd::prelude::*;
use crate::offers::texts;

verus! {

/// A channel that delivers announcement messages.
pub trait Notifier {
    fn notify(&self, message: &str) -> Result<(), String>;
}

/// A channel that keeps every message it is given, in order.
pub struct CaptureNotifier {
    msgs: Vec<String>,
}

impl CaptureNotifier {
    /// The messages kept so far, oldest first.
    pub closed spec fn messages(&self) -> Seq<Seq<char>> {
        texts(self.msgs@)
    }

    pub fn new() -> (r: Self)
        ensures
            r.messages() == Seq::<Seq<char>>::empty(),
    {
        let r = CaptureNotifier { msgs: Vec::new() };
        assert(r.messages() =~= Seq::<Seq<char>>::empty());
        r
    }

    /// A copy of the messages kept so far, oldest first.
    pub fn get_messages(&self) -> (r: Vec<String>)
        ensures
            texts(r@) == self.messages(),
    {
        let mut out: Vec<String> = Vec::new();
        let mut i: usize = 0;
        while i < self.msgs.len()
            invariant
                i <= self.msgs@.len(),
                texts(out@) == texts(self.msgs@).take(i as int),
            decreases self.msgs@.len() - i,
        {
            let ghost before = out@;
            out.push(self.msgs[i].clone());
            assert(texts(out@) =~= texts(before).push(self.msgs@[i as int]@));
            assert(texts(self.msgs@).take(i + 1) =~= texts(self.msgs@).take(i as int).push(
                self.msgs@[i as int]@,
            ));
            i = i + 1;
        }
        assert(texts(self.msgs@).take(i as int) =~= texts(self.msgs@));
        out
    }

    /// Keeps a message.
    pub fn notify(&mut self, message: &str)
        ensures
            final(self).messages() == old(self).messages().push(message@),
    {
        let ghost before = self.msgs@;
        self.msgs.push(message.to_owned());
        assert(texts(self.msgs@) =~= texts(before).push(message@));
    }
}

} // verus!
