use vstd::prelude::*;
use vstd::string::StringExecFns;

use crate::error::MatchError;
use crate::orderbook::{with_order_added, BidOrAsk, Order, OrderBook};
use crate::price::Price;

verus! {

/// The identity of a market: a base asset and a quote asset.
#[derive(Debug, Clone, Eq, Hash)]
pub struct TradingPair {
    base: String,
    quote: String,
}

impl View for TradingPair {
    type V = (Seq<char>, Seq<char>);

    closed spec fn view(&self) -> (Seq<char>, Seq<char>) {
        (self.base@, self.quote@)
    }
}

impl PartialEq for TradingPair {
    fn eq(&self, other: &TradingPair) -> (r: bool) {
        self.base == other.base && self.quote == other.quote
    }
}

impl vstd::std_specs::cmp::PartialEqSpecImpl for TradingPair {
    open spec fn obeys_eq_spec() -> bool {
        true
    }

    open spec fn eq_spec(&self, other: &TradingPair) -> bool {
        self@ == other@
    }
}

impl TradingPair {
    pub fn new(base: String, quote: String) -> (r: TradingPair)
        ensures
            r@ == (base@, quote@),
    {
        TradingPair { base, quote }
    }

    /// The pair written `BASE-QUOTE`.
    pub fn to_string(&self) -> (r: String)
        ensures
            r@ == self@.0 + seq!['-'] + self@.1,
    {
        proof {
            reveal_strlit("-");
        }
        self.base.clone().concat("-").concat(self.quote.as_str())
    }
}

/// One order book per registered trading pair.
#[derive(Debug)]
pub struct MatchingEngine {
    pairs: Vec<TradingPair>,
    books: Vec<OrderBook>,
}

impl MatchingEngine {
    /// Each registered pair has one book, and no pair is registered twice.
    pub closed spec fn wf(self) -> bool {
        &&& self.pairs@.len() == self.books@.len()
        &&& forall|i: int| 0 <= i < self.books@.len() ==> #[trigger] self.books@[i].wf()
        &&& forall|i: int, j: int|
            0 <= i < j < self.pairs@.len() ==> #[trigger] self.pairs@[i]@ != #[trigger] self.pairs@[j]@
    }

    /// The registered trading pairs.
    pub closed spec fn markets(self) -> Set<(Seq<char>, Seq<char>)> {
        Set::new(|k: (Seq<char>, Seq<char>)| exists|i: int| 0 <= i < self.pairs@.len() && #[trigger] self.pairs@[i]@ == k)
    }

    spec fn index_of(self, k: (Seq<char>, Seq<char>)) -> int {
        choose|i: int| 0 <= i < self.pairs@.len() && #[trigger] self.pairs@[i]@ == k
    }

    /// The book of a registered pair.
    pub closed spec fn book(self, k: (Seq<char>, Seq<char>)) -> OrderBook {
        self.books@[self.index_of(k)]
    }

    proof fn lemma_index_of(self, j: int)
        requires
            self.wf(),
            0 <= j < self.pairs@.len(),
        ensures
            self.index_of(self.pairs@[j]@) == j,
            self.markets().contains(self.pairs@[j]@),
            self.book(self.pairs@[j]@) == self.books@[j],
    {
        let k = self.pairs@[j]@;
        assert(self.pairs@[j]@ == k);
        let i = self.index_of(k);
        assert(0 <= i < self.pairs@.len() && self.pairs@[i]@ == k);
        if i < j {
            assert(self.pairs@[i]@ != self.pairs@[j]@);
        } else if j < i {
            assert(self.pairs@[j]@ != self.pairs@[i]@);
        }
    }

    pub fn new() -> (r: MatchingEngine)
        ensures
            r.wf(),
            r.markets() == Set::<(Seq<char>, Seq<char>)>::empty(),
    {
        let r = MatchingEngine { pairs: Vec::new(), books: Vec::new() };
        assert(r.markets() =~= Set::<(Seq<char>, Seq<char>)>::empty());
        r
    }

    /// The position of a registered pair, if it is registered.
    fn find(&self, pair: &TradingPair) -> (r: Option<usize>)
        requires
            self.wf(),
        ensures
            r is None <==> !self.markets().contains(pair@),
            r is Some ==> r->Some_0 < self.pairs@.len() && self.pairs@[r->Some_0 as int]@ == pair@,
    {
        let n = self.pairs.len();
        let mut i: usize = 0;
        while i < n
            invariant
                n == self.pairs@.len(),
                0 <= i <= n,
                forall|j: int| 0 <= j < i ==> #[trigger] self.pairs@[j]@ != pair@,
            decreases n - i,
        {
            if self.pairs[i] == *pair {
                return Some(i);
            }
            i = i + 1;
        }
        None
    }

    /// Registers a new market with an empty book. A pair that is already
    /// registered is refused, and its book is kept.
    pub fn add_new_market(&mut self, pair: TradingPair) -> (r: Result<(), MatchError>)
        requires
            old(self).wf(),
        ensures
            final(self).wf(),
            old(self).markets().contains(pair@) ==> r == Err::<(), MatchError>(
                MatchError::DuplicateMarket,
            ) && *final(self) == *old(self),
            !old(self).markets().contains(pair@) ==> {
                &&& r is Ok
                &&& final(self).markets() == old(self).markets().insert(pair@)
                &&& final(self).book(pair@).levels(BidOrAsk::Bid) == Map::<u64, Seq<Order>>::empty()
                &&& final(self).book(pair@).levels(BidOrAsk::Ask) == Map::<u64, Seq<Order>>::empty()
                &&& forall|k| #[trigger]
                    old(self).markets().contains(k) ==> final(self).book(k) == old(self).book(k)
            },
    {
        match self.find(&pair) {
            Some(_) => Err(MatchError::DuplicateMarket),
            None => {
                let ghost prev = *self;
                let ghost k = pair@;
                self.pairs.push(pair);
                self.books.push(OrderBook::new());
                proof {
                    let n = prev.pairs@.len() as int;
                    assert(self.wf());
                    self.lemma_index_of(n);
                    assert forall|k2| #[trigger]
                        prev.markets().contains(k2) implies self.book(k2) == prev.book(k2) by {
                        let j = choose|j: int| 0 <= j < prev.pairs@.len() && #[trigger] prev.pairs@[j]@ == k2;
                        prev.lemma_index_of(j);
                        self.lemma_index_of(j);
                    }
                    assert forall|k2| #[trigger] self.markets().contains(k2) <==> prev.markets().insert(k).contains(k2) by {
                        if self.markets().contains(k2) {
                            let j = choose|j: int| 0 <= j < self.pairs@.len() && #[trigger] self.pairs@[j]@ == k2;
                            if j < n {
                                prev.lemma_index_of(j);
                            }
                        }
                        if prev.markets().contains(k2) {
                            let j = choose|j: int| 0 <= j < prev.pairs@.len() && #[trigger] prev.pairs@[j]@ == k2;
                            self.lemma_index_of(j);
                        }
                    }
                    assert(self.markets() =~= prev.markets().insert(k));
                }
                Ok(())
            },
        }
    }

    /// Places a limit order in the book of `pair`. An unregistered pair is
    /// refused and nothing changes; no book is opened on the way.
    pub fn place_limit_order(&mut self, pair: TradingPair, price: Price, order: Order) -> (r: Result<
        (),
        MatchError,
    >)
        requires
            old(self).wf(),
        ensures
            final(self).wf(),
            !old(self).markets().contains(pair@) ==> r == Err::<(), MatchError>(
                MatchError::UnknownMarket,
            ) && *final(self) == *old(self),
            old(self).markets().contains(pair@) ==> {
                &&& r is Ok
                &&& final(self).markets() == old(self).markets()
                &&& final(self).book(pair@).levels(order.spec_side()) == with_order_added(
                    old(self).book(pair@).levels(order.spec_side()),
                    price.key(),
                    order,
                )
                &&& final(self).book(pair@).levels(order.spec_side().opposite()) == old(
                    self,
                ).book(pair@).levels(order.spec_side().opposite())
                &&& forall|k| #[trigger]
                    old(self).markets().contains(k) && k != pair@ ==> final(self).book(k)
                        == old(self).book(k)
            },
    {
        match self.find(&pair) {
            None => Err(MatchError::UnknownMarket),
            Some(i) => {
                let ghost prev = *self;
                self.books[i].add_limit_order(price, order);
                proof {
                    assert(self.pairs@ == prev.pairs@);
                    assert(self.wf());
                    assert(self.markets() =~= prev.markets());
                    prev.lemma_index_of(i as int);
                    self.lemma_index_of(i as int);
                    assert forall|k2| #[trigger]
                        prev.markets().contains(k2) && k2 != pair@ implies self.book(k2)
                        == prev.book(k2) by {
                        let j = choose|j: int| 0 <= j < prev.pairs@.len() && #[trigger] prev.pairs@[j]@ == k2;
                        prev.lemma_index_of(j);
                        self.lemma_index_of(j);
                    }
                }
                Ok(())
            },
        }
    }

    /// The book of `pair`, if the pair is registered.
    pub fn market(&self, pair: &TradingPair) -> (r: Option<&OrderBook>)
        requires
            self.wf(),
        ensures
            r is Some <==> self.markets().contains(pair@),
            r is Some ==> *r->Some_0 == self.book(pair@),
            r is Some ==> r->Some_0.wf(),
    {
        match self.find(pair) {
            Some(i) => {
                proof {
                    self.lemma_index_of(i as int);
                }
                Some(&self.books[i])
            },
            None => None,
        }
    }
}

} // verus!
