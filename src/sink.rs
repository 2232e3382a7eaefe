use vstd::prelude::*;

use futures_channel::mpsc::UnboundedSender;
use tokio_tungstenite::tungstenite::Message;

verus! {

#[verifier::external_type_specification]
#[verifier::external_body]
#[verifier::reject_recursive_types(T)]
pub struct ExUnboundedSender<T>(UnboundedSender<T>);

#[verifier::external_type_specification]
#[verifier::external_body]
pub struct ExMessage(Message);

/// The write side of one peer's outbound queue.
pub type Tx = UnboundedSender<Message>;

/// Relies on futures_channel's `UnboundedSender::clone`: for the unbounded
/// sender the clone holds the same shared channel as the handle it came from, so the two
/// handles are the same value. The clone panics only when `usize::MAX >> 2`
/// senders of the channel are alive at once.
#[verifier::external_body]
fn clone_tx(tx: &Tx) -> (r: Tx)
    ensures
        r == *tx,
{
    tx.clone()
}

/// One peer's outbound sink, with a record of every text handed to it, in
/// the order it was handed over.
pub struct Sink {
    tx: Tx,
    sent: Ghost<Seq<Seq<char>>>,
}

impl Sink {
    /// The queue handle.
    pub closed spec fn handle(&self) -> Tx {
        self.tx
    }

    /// The texts handed to this sink so far, oldest first.
    pub closed spec fn sent(&self) -> Seq<Seq<char>> {
        self.sent@
    }

    /// A sink over `tx` with nothing handed to it yet.
    pub fn new(tx: Tx) -> (r: Sink)
        ensures
            r.handle() == tx,
            r.sent() == Seq::<Seq<char>>::empty(),
    {
        Sink { tx, sent: Ghost(Seq::empty()) }
    }

    /// The queue handle.
    pub fn tx(&self) -> (r: &Tx)
        ensures
            *r == self.handle(),
    {
        &self.tx
    }

    /// A second handle on the same queue, with the same record.
    pub fn duplicate(&self) -> (r: Sink)
        ensures
            r == *self,
    {
        Sink { tx: clone_tx(&self.tx), sent: Ghost(self.sent@) }
    }

    /// Relies on futures_channel's `UnboundedSender::unbounded_send`, with the
    /// text wrapped as a tungstenite `Message::Text`: the message joins the
    /// back of the peer's queue, or is dropped when the receiving side is
    /// gone. The failure is swallowed on purpose. The call panics only when
    /// the queue already holds `usize::MAX >> 1` messages.
    #[verifier::external_body]
    pub(crate) fn enqueue(&mut self, content: &String)
        ensures
            final(self).handle() == old(self).handle(),
            final(self).sent() == old(self).sent().push(content@),
    {
        let _ = self.tx.unbounded_send(Message::Text(content.clone()));
    }
}

} // verus!
