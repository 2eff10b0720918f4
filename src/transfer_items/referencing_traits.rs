use vstd::prelude::*;
use std::collections::VecDeque;
use crate::move_items_in_graph::TransferItem;

verus! {

/// Hands out items one at a time, front first, while they are admitted.
pub trait Source {
    /// Items not yet handed out, front first.
    spec fn pending(&self) -> Seq<TransferItem>;

    /// Whether `item` may be handed out.
    spec fn admits(&self, item: TransferItem) -> bool;

    /// Removes and returns the front item if it is admitted; otherwise
    /// changes nothing and returns `None`.
    fn read(&mut self) -> (r: Option<TransferItem>)
        ensures
            forall|x: TransferItem| #[trigger] final(self).admits(x) == old(self).admits(x),
            match r {
                Some(x) => {
                    &&& old(self).pending().len() > 0
                    &&& x == old(self).pending()[0]
                    &&& old(self).admits(x)
                    &&& final(self).pending() == old(self).pending().drop_first()
                },
                None => {
                    &&& final(self).pending() == old(self).pending()
                    &&& (old(self).pending().len() == 0 || !old(self).admits(old(self).pending()[0]))
                },
            },
    ;
}

/// Takes items one at a time, appending them.
pub trait Sink {
    /// Items written so far, oldest first.
    spec fn written(&self) -> Seq<TransferItem>;

    fn write(&mut self, item: TransferItem)
        ensures
            final(self).written() == old(self).written().push(item),
    ;
}

/// The longest prefix of `s` whose items `src` all admits.
pub open spec fn admitted_prefix<F: Source>(src: F, s: Seq<TransferItem>) -> Seq<TransferItem>
    decreases s.len(),
{
    if s.len() == 0 || !src.admits(s[0]) {
        Seq::empty()
    } else {
        seq![s[0]] + admitted_prefix(src, s.drop_first())
    }
}

/// Cursor that moves items from a source to a sink.
pub struct Iter<F, T> {
    pub from: F,
    pub to: T,
}

impl<F: Source, T: Sink> Iter<F, T> {
    /// Moves the next admitted item from the source to the sink and returns
    /// it; returns `None`, moving nothing, when the source is empty or its
    /// front item is not admitted.
    pub fn next(&mut self) -> (r: Option<TransferItem>)
        ensures
            forall|x: TransferItem| #[trigger] final(self).from.admits(x) == old(self).from.admits(x),
            old(self).from.pending().len() == final(self).from.pending().len() + if r is Some { 1int } else { 0int },
            final(self).to.written().len() == old(self).to.written().len() + if r is Some { 1int } else { 0int },
            match r {
                Some(x) => {
                    &&& old(self).from.pending().len() > 0
                    &&& x == old(self).from.pending()[0]
                    &&& old(self).from.admits(x)
                    &&& final(self).from.pending() == old(self).from.pending().drop_first()
                    &&& final(self).to.written() == old(self).to.written().push(x)
                },
                None => {
                    &&& final(self).from.pending() == old(self).from.pending()
                    &&& final(self).to.written() == old(self).to.written()
                    &&& (old(self).from.pending().len() == 0 || !old(self).from.admits(old(self).from.pending()[0]))
                },
            },
    {
        let next = self.from.read();
        if let Some(item) = next {
            self.to.write(item);
        }
        next
    }

    /// Runs the cursor to its end and returns the items it moved: exactly the
    /// longest admitted prefix of the source, which leaves the source in
    /// order and is appended to the sink. An item that is not admitted stops
    /// the cursor even when admitted items follow it.
    pub fn drain(&mut self) -> (r: Vec<TransferItem>)
        ensures
            r@ == admitted_prefix(old(self).from, old(self).from.pending()),
            old(self).from.pending() == r@ + final(self).from.pending(),
            final(self).to.written() == old(self).to.written() + r@,
            old(self).from.pending().len() == final(self).from.pending().len() + r@.len(),
            final(self).to.written().len() == old(self).to.written().len() + r@.len(),
            forall|x: TransferItem| #[trigger] final(self).from.admits(x) == old(self).from.admits(x),
    {
        let ghost start = *self;
        let mut out: Vec<TransferItem> = Vec::new();
        let mut done = false;
        while !done
            invariant
                forall|x: TransferItem| #[trigger] self.from.admits(x) == start.from.admits(x),
                start.from.pending() == out@ + self.from.pending(),
                self.to.written() == start.to.written() + out@,
                admitted_prefix(start.from, start.from.pending()) == out@ + admitted_prefix(start.from, self.from.pending()),
                done ==> admitted_prefix(start.from, self.from.pending()) == Seq::<TransferItem>::empty(),
            decreases self.from.pending().len() + if done { 0int } else { 1int },
        {
            let ghost cur = self.from.pending();
            let ghost written = self.to.written();
            let ghost got = out@;
            match self.next() {
                Some(x) => {
                    out.push(x);
                    proof {
                        assert(cur =~= seq![x] + self.from.pending());
                        assert(start.from.pending() =~= out@ + self.from.pending());
                        assert(self.to.written() =~= start.to.written() + out@);
                        assert(admitted_prefix(start.from, cur) == seq![x] + admitted_prefix(start.from, self.from.pending()));
                        assert(out@ + admitted_prefix(start.from, self.from.pending()) =~= got + (seq![x] + admitted_prefix(start.from, self.from.pending())));
                    }
                },
                None => {
                    done = true;
                    proof {
                        assert(out@ + Seq::<TransferItem>::empty() =~= out@);
                    }
                },
            }
        }
        proof {
            assert(out@ + Seq::<TransferItem>::empty() =~= out@);
        }
        out
    }
}

/// Source over a queue that admits items whose value is at most `timestamp`.
pub struct TransferSource {
    pub timestamp: u64,
    pub source: VecDeque<TransferItem>,
}

impl Source for TransferSource {
    open spec fn pending(&self) -> Seq<TransferItem> {
        self.source@
    }

    open spec fn admits(&self, item: TransferItem) -> bool {
        item.data <= self.timestamp
    }

    fn read(&mut self) -> (r: Option<TransferItem>) {
        let next = self.source.pop_front();
        if let Some(item) = next {
            if item.data <= self.timestamp {
                return next;
            } else {
                self.source.push_front(item);
            }
        }
        None
    }
}

/// Sink that appends to a vector.
pub struct TransferSink {
    pub sink: Vec<TransferItem>,
}

impl Sink for TransferSink {
    open spec fn written(&self) -> Seq<TransferItem> {
        self.sink@
    }

    fn write(&mut self, item: TransferItem) {
        self.sink.push(item);
    }
}

/// A source queue and a sink, between which items are moved by a cursor.
pub struct Transfer {
    pub from: VecDeque<TransferItem>,
    pub to: Vec<TransferItem>,
}

impl Transfer {
    /// A cursor that moves items from `from` to `to` while their value is at
    /// most `timestamp`. The cursor holds both queues, so nothing else can
    /// change them while it runs; `finish` hands them back.
    pub fn start(self, timestamp: u64) -> (r: Iter<TransferSource, TransferSink>)
        ensures
            r.from.timestamp == timestamp,
            r.from.source@ == self.from@,
            r.to.sink@ == self.to@,
    {
        Iter {
            from: TransferSource { timestamp, source: self.from },
            to: TransferSink { sink: self.to },
        }
    }
}

impl Iter<TransferSource, TransferSink> {
    /// Ends the cursor, handing back the two queues as they now stand.
    pub fn finish(self) -> (r: Transfer)
        ensures
            r.from@ == self.from.source@,
            r.to@ == self.to.sink@,
    {
        Transfer { from: self.from.source, to: self.to.sink }
    }
}

} // verus!
