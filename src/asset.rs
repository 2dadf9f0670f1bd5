use vstd::prelude::*;

verus! {

/// One holding of a simulated portfolio.
///
/// `price_history` is append-only; its last element is the current price.
pub struct Asset {
    pub ticker: String,
    pub shares_held: i64,
    pub price_history: Vec<u64>,
}

/// The latest price of a history, or zero when nothing has been recorded.
pub open spec fn latest_of(history: Seq<u64>) -> nat {
    if history.len() == 0 {
        0
    } else {
        history.last() as nat
    }
}

impl Asset {
    pub open spec fn latest_spec(&self) -> nat {
        latest_of(self.price_history@)
    }

    /// Market value of the holding at its latest price.
    pub open spec fn value_spec(&self) -> int {
        self.shares_held * self.latest_spec()
    }

    pub fn new(ticker: String, shares_held: i64, price_history: Vec<u64>) -> (r: Asset)
        ensures
            r.ticker@ == ticker@,
            r.shares_held == shares_held,
            r.price_history@ == price_history@,
    {
        Asset { ticker, shares_held, price_history }
    }

    /// The current price: the last recorded one, or zero for an empty history.
    pub fn latest_price(&self) -> (r: u64)
        ensures
            r == self.latest_spec(),
    {
        let n = self.price_history.len();
        if n == 0 {
            0
        } else {
            self.price_history[n - 1]
        }
    }

    /// Shares held times the latest price.
    pub fn calculate_value(&self) -> (r: i128)
        ensures
            r == self.value_spec(),
    {
        let p = self.latest_price();
        let s = self.shares_held;
        proof {
            let pi = p as int;
            let si = s as int;
            assert(-0x8000_0000_0000_0000 <= si < 0x8000_0000_0000_0000);
            assert(0 <= pi < 0x1_0000_0000_0000_0000);
            assert(-0x8000_0000_0000_0000_0000_0000_0000_0000 < si * pi
                < 0x8000_0000_0000_0000_0000_0000_0000_0000) by (nonlinear_arith)
                requires
                    -0x8000_0000_0000_0000 <= si < 0x8000_0000_0000_0000,
                    0 <= pi < 0x1_0000_0000_0000_0000,
            ;
        }
        (s as i128) * (p as i128)
    }

    /// An independent copy of the holding.
    pub fn duplicate(&self) -> (r: Asset)
        ensures
            r.ticker@ == self.ticker@,
            r.shares_held == self.shares_held,
            r.price_history@ == self.price_history@,
    {
        Asset { ticker: self.ticker.clone(), shares_held: self.shares_held, price_history: copy_vec(&self.price_history) }
    }

    /// Records the price of a new period.
    pub fn push_price(&mut self, price: u64)
        ensures
            final(self).ticker == old(self).ticker,
            final(self).shares_held == old(self).shares_held,
            final(self).price_history@ == old(self).price_history@.push(price),
    {
        self.price_history.push(price);
    }
}

/// An element-by-element copy of a vector of plain values.
pub fn copy_vec<T: Copy>(v: &Vec<T>) -> (r: Vec<T>)
    ensures
        r@ == v@,
{
    let mut out: Vec<T> = Vec::new();
    let mut i: usize = 0;
    while i < v.len()
        invariant
            0 <= i <= v@.len(),
            out@ == v@.subrange(0, i as int),
        decreases v@.len() - i,
    {
        out.push(v[i]);
        i += 1;
        assert(out@ =~= v@.subrange(0, i as int));
    }
    assert(out@ =~= v@);
    out
}

/// Independent copies of a list of holdings.
pub fn copy_assets(v: &Vec<Asset>) -> (r: Vec<Asset>)
    ensures
        r@.len() == v@.len(),
        forall|i: int| 0 <= i < v@.len() ==> (#[trigger] r@[i]).ticker@ == v@[i].ticker@ && r@[i].shares_held
            == v@[i].shares_held && r@[i].price_history@ == v@[i].price_history@,
{
    let mut out: Vec<Asset> = Vec::new();
    let mut i: usize = 0;
    while i < v.len()
        invariant
            0 <= i <= v@.len(),
            out@.len() == i,
            forall|j: int| 0 <= j < i ==> (#[trigger] out@[j]).ticker@ == v@[j].ticker@ && out@[j].shares_held
                == v@[j].shares_held && out@[j].price_history@ == v@[j].price_history@,
        decreases v@.len() - i,
    {
        out.push(v[i].duplicate());
        i += 1;
    }
    out
}

/// Sum of the market values of `assets[0..k]`.
pub open spec fn value_prefix(assets: Seq<Asset>, k: int) -> int
    decreases k,
{
    if k <= 0 {
        0
    } else {
        value_prefix(assets, k - 1) + assets[k - 1].value_spec()
    }
}

/// Total market value of a portfolio.
pub open spec fn portfolio_value(assets: Seq<Asset>) -> int {
    value_prefix(assets, assets.len() as int)
}

/// Every partial sum of the portfolio's values fits in an `i128`.
pub open spec fn value_fits(assets: Seq<Asset>) -> bool {
    forall|k: int| 0 <= k <= assets.len() ==> i128::MIN <= #[trigger] value_prefix(assets, k) <= i128::MAX
}

/// Total market value of `assets`, or `None` when a partial sum leaves `i128`.
pub fn total_value(assets: &Vec<Asset>) -> (r: Option<i128>)
    ensures
        r.is_some() <==> value_fits(assets@),
        r.is_some() ==> r.unwrap() == portfolio_value(assets@),
{
    let mut total: i128 = 0;
    let mut i: usize = 0;
    while i < assets.len()
        invariant
            0 <= i <= assets@.len(),
            total == value_prefix(assets@, i as int),
            forall|k: int| 0 <= k <= i ==> i128::MIN <= #[trigger] value_prefix(assets@, k) <= i128::MAX,
        decreases assets@.len() - i,
    {
        let v = assets[i].calculate_value();
        match total.checked_add(v) {
            Some(t) => {
                total = t;
            },
            None => {
                assert(!(i128::MIN <= value_prefix(assets@, i + 1) <= i128::MAX));
                return None;
            },
        }
        i += 1;
    }
    Some(total)
}

} // verus!
