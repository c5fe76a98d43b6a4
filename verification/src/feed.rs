//! The tick feed: the prices of one file, in order, numbered from zero.

use vstd::prelude::*;
use crate::fixed::Fixed;
use crate::indicators::Tick;
use crate::price_text::{parse_price, parsed_price};

verus! {

/// What a feed holds: the prices taken so far and the position of the next tick.
pub struct FeedState {
    pub prices: Seq<Fixed>,
    pub cursor: nat,
}

/// The prices that the lines of a file hold, in order. A line that is no price adds
/// nothing, and so takes no index.
pub open spec fn prices_of(lines: Seq<Seq<u8>>) -> Seq<Fixed>
    decreases lines.len(),
{
    if lines.len() == 0 {
        Seq::<Fixed>::empty()
    } else {
        match parsed_price(lines.last()) {
            Some(raw) => prices_of(lines.drop_last()).push(Fixed { raw: raw as i64 }),
            None => prices_of(lines.drop_last()),
        }
    }
}

/// The lines of a file as sequences of bytes.
pub open spec fn line_bytes(lines: Seq<Vec<u8>>) -> Seq<Seq<u8>> {
    Seq::new(lines.len(), |i: int| lines[i]@)
}

/// An ordered, finite, restartable sequence of ticks.
pub struct TickFeed {
    prices: Vec<Fixed>,
    cursor: usize,
}

impl View for TickFeed {
    type V = FeedState;

    closed spec fn view(&self) -> FeedState {
        FeedState { prices: self.prices@, cursor: self.cursor as nat }
    }
}

impl TickFeed {
    /// A feed without prices.
    pub fn new() -> (r: TickFeed)
        ensures
            r@ == (FeedState { prices: Seq::<Fixed>::empty(), cursor: 0 }),
    {
        TickFeed { prices: Vec::new(), cursor: 0 }
    }

    /// The feed of a file's lines, positioned at its first tick.
    pub fn from_lines(lines: &Vec<Vec<u8>>) -> (r: TickFeed)
        ensures
            r@ == (FeedState { prices: prices_of(line_bytes(lines@)), cursor: 0 }),
    {
        let mut feed: TickFeed = TickFeed::new();
        let ghost all = line_bytes(lines@);
        let mut i: usize = 0;
        assert(all.take(0) =~= Seq::<Seq<u8>>::empty());
        while i < lines.len()
            invariant
                i <= lines@.len(),
                all == line_bytes(lines@),
                feed@ == (FeedState { prices: prices_of(all.take(i as int)), cursor: 0 }),
            decreases lines@.len() - i,
        {
            assert(all.take(i + 1).drop_last() =~= all.take(i as int));
            assert(all.take(i + 1).last() == lines@[i as int]@);
            feed.push_line(lines[i].as_slice());
            i = i + 1;
        }
        assert(all.take(i as int) =~= all);
        feed
    }

    /// Takes one line of the file. A line that holds a price adds it at the end and is
    /// accepted; any other line is skipped and leaves the feed as it was.
    pub fn push_line(&mut self, line: &[u8]) -> (accepted: bool)
        ensures
            accepted == parsed_price(line@).is_some(),
            final(self)@.cursor == old(self)@.cursor,
            accepted ==> final(self)@.prices == old(self)@.prices.push(
                Fixed { raw: parsed_price(line@).unwrap() as i64 },
            ),
            !accepted ==> final(self)@.prices == old(self)@.prices,
    {
        match parse_price(line) {
            Some(price) => {
                self.prices.push(price);
                true
            },
            None => false,
        }
    }

    /// The number of ticks in the feed.
    pub fn len(&self) -> (r: usize)
        ensures
            r == self@.prices.len(),
    {
        self.prices.len()
    }

    /// The prices of the feed, in tick order.
    pub fn prices(&self) -> (r: &Vec<Fixed>)
        ensures
            r@ == self@.prices,
    {
        &self.prices
    }

    /// The next tick, if one is left. The tick at position `i` of the feed has index `i`.
    pub fn next(&mut self) -> (r: Option<Tick>)
        ensures
            final(self)@.prices == old(self)@.prices,
            old(self)@.cursor < old(self)@.prices.len() ==> r == Some(
                Tick {
                    index: old(self)@.cursor as u64,
                    price: old(self)@.prices[old(self)@.cursor as int],
                },
            ) && final(self)@.cursor == old(self)@.cursor + 1,
            old(self)@.cursor >= old(self)@.prices.len() ==> r.is_none() && final(self)@.cursor
                == old(self)@.cursor,
    {
        if self.cursor < self.prices.len() {
            let tick: Tick = Tick { index: self.cursor as u64, price: self.prices[self.cursor] };
            self.cursor = self.cursor + 1;
            Some(tick)
        } else {
            None
        }
    }

    /// Goes back to the first tick.
    pub fn restart(&mut self)
        ensures
            final(self)@ == (FeedState { prices: old(self)@.prices, cursor: 0 }),
    {
        self.cursor = 0;
    }
}

/// The prices of two files read one after the other are the prices of the first followed
/// by those of the second.
pub proof fn lemma_prices_of_concat(first: Seq<Seq<u8>>, second: Seq<Seq<u8>>)
    ensures
        prices_of(first + second) == prices_of(first) + prices_of(second),
    decreases second.len(),
{
    if second.len() == 0 {
        assert(first + second =~= first);
        assert(prices_of(first) + prices_of(second) =~= prices_of(first));
    } else {
        assert((first + second).drop_last() =~= first + second.drop_last());
        assert((first + second).last() == second.last());
        lemma_prices_of_concat(first, second.drop_last());
        match parsed_price(second.last()) {
            Some(raw) => {
                assert(prices_of(first + second) =~= prices_of(first) + prices_of(second));
            },
            None => {},
        }
    }
}

/// A line that is no price is skipped and takes no tick index: the file with the line holds
/// the same prices at the same positions as the file without it.
pub proof fn lemma_skipped_line_takes_no_index(
    before: Seq<Seq<u8>>,
    skipped: Seq<u8>,
    after: Seq<Seq<u8>>,
)
    requires
        parsed_price(skipped).is_none(),
    ensures
        prices_of(before + seq![skipped] + after) == prices_of(before + after),
{
    let single = seq![skipped];
    assert(single.drop_last() =~= Seq::<Seq<u8>>::empty());
    assert(single.last() == skipped);
    assert(prices_of(single.drop_last()) =~= Seq::<Fixed>::empty());
    assert(prices_of(single) =~= Seq::<Fixed>::empty());
    lemma_prices_of_concat(before, single);
    lemma_prices_of_concat(before + single, after);
    lemma_prices_of_concat(before, after);
    assert(prices_of(before) + Seq::<Fixed>::empty() =~= prices_of(before));
}

/// A line that is a price takes exactly one tick index, the next free one: every price of
/// the lines after it moves up by one position.
pub proof fn lemma_price_line_takes_one_index(before: Seq<Seq<u8>>, line: Seq<u8>)
    requires
        parsed_price(line).is_some(),
    ensures
        prices_of(before + seq![line]).len() == prices_of(before).len() + 1,
        prices_of(before + seq![line])[prices_of(before).len() as int]@ == parsed_price(
            line,
        ).unwrap(),
{
    let single = seq![line];
    assert((before + single).drop_last() =~= before);
    assert((before + single).last() == line);
    assert(parsed_price(line).unwrap() as i64 == parsed_price(line).unwrap());
}

} // verus!
