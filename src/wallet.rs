use vstd::prelude::*;
use vstd::string::*;

verus! {

/// The character of a digit below 16, in lower case.
pub open spec fn hex_char(d: nat) -> char {
    seq!['0', '1', '2', '3', '4', '5', '6', '7', '8', '9', 'a', 'b', 'c', 'd', 'e', 'f'][d as int]
}

/// `n` in base 16, lower case, without leading zeros ("0" for zero).
pub open spec fn hex_digits(n: nat) -> Seq<char>
    decreases n,
{
    if n < 16 {
        seq![hex_char(n)]
    } else {
        hex_digits(n / 16).push(hex_char(n % 16))
    }
}

/// `n` in base 10, without leading zeros ("0" for zero).
pub open spec fn decimal_digits(n: nat) -> Seq<char>
    decreases n,
{
    let c = seq!['0', '1', '2', '3', '4', '5', '6', '7', '8', '9'];
    if n < 10 {
        seq![c[n as int]]
    } else {
        decimal_digits(n / 10).push(c[(n % 10) as int])
    }
}

/// The text of a wallet id: "wallet_" followed by a 64-bit number in hex.
pub open spec fn is_wallet_id(s: Seq<char>) -> bool {
    exists|h: u64| s == "wallet_"@ + hex_digits(h as nat)
}

/// The sum of the balances of a sequence of wallets.
pub open spec fn sum_balances(s: Seq<Wallet>) -> int
    decreases s.len(),
{
    if s.len() == 0 {
        0
    } else {
        sum_balances(s.drop_last()) + s.last().spec_balance()
    }
}

/// Relies on std::time::SystemTime::now and duration_since(UNIX_EPOCH): the
/// current time in nanoseconds, `None` when the clock is before the epoch.
/// Nothing is promised of the value.
#[verifier::external_body]
fn nanos_since_epoch() -> (r: Option<u128>) {
    match std::time::SystemTime::now().duration_since(std::time::UNIX_EPOCH) {
        Ok(d) => Some(d.as_nanos()),
        Err(_) => None,
    }
}

/// Relies on std::collections::hash_map::DefaultHasher: a 64-bit hash of `t`.
/// Its algorithm is unspecified, so nothing is promised of the value.
#[verifier::external_body]
fn hash_of_nanos(t: u128) -> (r: u64) {
    let mut hasher = std::collections::hash_map::DefaultHasher::new();
    std::hash::Hash::hash(&t, &mut hasher);
    std::hash::Hasher::finish(&hasher)
}

/// Relies on std's `{:x}` formatting of `u64`: lower-case hex digits without
/// leading zeros.
#[verifier::external_body]
fn hex_text(n: u64) -> (r: String)
    ensures
        r@ == hex_digits(n as nat),
{
    format!("{:x}", n)
}

/// Relies on std's `{}` formatting of `u64`: decimal digits without leading
/// zeros.
#[verifier::external_body]
fn decimal_text(n: u64) -> (r: String)
    ensures
        r@ == decimal_digits(n as nat),
{
    format!("{}", n)
}

/// A wallet with an id drawn from the clock and a balance in whole units.
#[derive(Debug, Clone)]
pub struct Wallet {
    id: String,
    balance: u64,
}

impl Wallet {
    /// The current balance.
    pub closed spec fn spec_balance(&self) -> u64 {
        self.balance
    }

    /// The wallet's id.
    pub closed spec fn spec_id(&self) -> Seq<char> {
        self.id@
    }

    /// A new wallet holding `balance`, whose id is "wallet_" followed by the
    /// hex of a hash of the current time.
    pub fn create(balance: u64) -> (r: Wallet)
        ensures
            r.spec_balance() == balance,
            is_wallet_id(r.spec_id()),
    {
        let nanos = match nanos_since_epoch() {
            Some(t) => t,
            None => 0,
        };
        let h = hash_of_nanos(nanos);
        let hex = hex_text(h);
        let mut id = String::from_str("wallet_");
        id.append(hex.as_str());
        assert(id@ == "wallet_"@ + hex_digits(h as nat));
        Wallet { id, balance }
    }

    /// The current balance.
    pub fn balance(&self) -> (r: u64)
        ensures
            r == self.spec_balance(),
    {
        self.balance
    }

    /// Takes `amount` out of the wallet when the balance covers it; otherwise
    /// fails with "Insufficient balance" and leaves the wallet as it was.
    pub fn send(&mut self, amount: u64) -> (r: Result<(), String>)
        ensures
            r.is_ok() <==> old(self).spec_balance() >= amount,
            final(self).spec_id() == old(self).spec_id(),
            match r {
                Ok(()) => final(self).spec_balance() == old(self).spec_balance() - amount,
                Err(e) => e@ == "Insufficient balance"@ && final(self).spec_balance() == old(self).spec_balance(),
            },
    {
        if self.balance >= amount {
            self.balance = self.balance - amount;
            Ok(())
        } else {
            Err(String::from_str("Insufficient balance"))
        }
    }

    /// Moves `amount` from this wallet to `target` when this balance covers
    /// it; otherwise fails as `send` does and changes neither wallet.
    pub fn transfer(&mut self, target: &mut Wallet, amount: u64) -> (r: Result<(), String>)
        requires
            old(self).spec_balance() >= amount ==> old(target).spec_balance() + amount <= u64::MAX,
        ensures
            r.is_ok() <==> old(self).spec_balance() >= amount,
            final(self).spec_id() == old(self).spec_id(),
            final(target).spec_id() == old(target).spec_id(),
            match r {
                Ok(()) => final(self).spec_balance() == old(self).spec_balance() - amount
                    && final(target).spec_balance() == old(target).spec_balance() + amount,
                Err(e) => e@ == "Insufficient balance"@
                    && final(self).spec_balance() == old(self).spec_balance()
                    && final(target).spec_balance() == old(target).spec_balance(),
            },
    {
        match self.send(amount) {
            Ok(()) => {
                target.balance = target.balance + amount;
                Ok(())
            },
            Err(e) => Err(e),
        }
    }

    /// The sum of the balances of `wallets`.
    pub fn total_balance(wallets: &[Wallet]) -> (r: u64)
        requires
            sum_balances(wallets@) <= u64::MAX,
        ensures
            r == sum_balances(wallets@),
    {
        let mut total: u64 = 0;
        let mut i: usize = 0;
        while i < wallets.len()
            invariant
                i <= wallets@.len(),
                sum_balances(wallets@) <= u64::MAX,
                total == sum_balances(wallets@.take(i as int)),
            decreases wallets@.len() - i,
        {
            proof {
                assert(wallets@.take(i + 1).drop_last() == wallets@.take(i as int));
                lemma_prefix_sum_bounded(wallets@, i + 1);
            }
            total = total + wallets[i].balance();
            i = i + 1;
        }
        proof {
            assert(wallets@.take(i as int) == wallets@);
        }
        total
    }

    /// "Wallet [<id>] Balance: <balance> ETH".
    pub fn info(&self) -> (r: String)
        ensures
            r@ == "Wallet ["@ + self.spec_id() + "] Balance: "@ + decimal_digits(self.spec_balance() as nat) + " ETH"@,
    {
        let amount = decimal_text(self.balance);
        let mut text = String::from_str("Wallet [");
        text.append(self.id.as_str());
        text.append("] Balance: ");
        text.append(amount.as_str());
        text.append(" ETH");
        text
    }
}

/// The balances of a prefix of `s` sum to no more than those of `s`.
proof fn lemma_prefix_sum_bounded(s: Seq<Wallet>, i: int)
    requires
        0 <= i <= s.len(),
    ensures
        sum_balances(s.take(i)) <= sum_balances(s),
    decreases s.len(),
{
    if i < s.len() {
        assert(s.drop_last().take(i) == s.take(i));
        lemma_prefix_sum_bounded(s.drop_last(), i);
    } else {
        assert(s.take(i) == s);
    }
}

} // verus!
