//! What the gateway is started with, and where it keeps its files.

use vstd::prelude::*;

verus! {

/// How a gateway is deployed.
#[derive(Debug, PartialEq, Eq)]
pub struct GatewayConfig {
    /// Where the backends are reached.
    pub subnet_url: String,
    /// Where the gateway listens for clients.
    pub gateway_address: String,
    /// The time from one tick of a poller to the next, in milliseconds.
    pub polling_interval: u64,
}

impl Default for GatewayConfig {
    /// A gateway for a platform that runs on this machine.
    fn default() -> (config: GatewayConfig)
        ensures
            config.subnet_url@ == "http://127.0.0.1:4943"@,
            config.gateway_address@ == "0.0.0.0:8080"@,
            config.polling_interval == 200,
    {
        GatewayConfig {
            subnet_url: "http://127.0.0.1:4943".to_owned(),
            gateway_address: "0.0.0.0:8080".to_owned(),
            polling_interval: 200,
        }
    }
}

/// The character of the digit `d`.
pub open spec fn digit(d: nat) -> char {
    (48 + d % 10) as u8 as char
}

/// `n` in decimal digits.
pub open spec fn decimal(n: nat) -> Seq<char>
    decreases n,
{
    if n < 10 {
        seq![digit(n)]
    } else {
        decimal(n / 10).push(digit(n % 10))
    }
}

/// The digits of `n` where `n` is what is left of a number once its last
/// digits were taken off: none where nothing is left, that is where `n`
/// is 0.
spec fn leading(n: nat) -> Seq<char> {
    if n == 0 {
        Seq::empty()
    } else {
        decimal(n)
    }
}

/// `digits` from the last to the first.
spec fn backwards(digits: Seq<char>) -> Seq<char> {
    Seq::new(digits.len(), |j: int| digits[digits.len() - 1 - j])
}

/// Appends one character with `String::push`. Assumed, as std documents
/// it: the string afterwards is the string before with `c` at its end.
#[verifier::external_body]
fn push_char(s: &mut String, c: char)
    ensures
        final(s)@ == old(s)@.push(c),
{
    s.push(c)
}

/// The file that the traces of a gateway started at `millis`, in
/// milliseconds since 1970, are written to.
pub fn trace_file_name(millis: u128) -> (name: String)
    ensures
        name@ == "./data/traces/gateway_"@ + decimal(millis as nat) + ".log"@,
{
    let mut digits: Vec<char> = Vec::new();
    digits.push((48u8 + (millis % 10) as u8) as char);
    let mut rest: u128 = millis / 10;
    assert(decimal(millis as nat) =~= leading(rest as nat) + backwards(digits@));
    while rest > 0
        invariant
            decimal(millis as nat) == leading(rest as nat) + backwards(digits@),
        decreases rest,
    {
        let ghost before = digits@;
        digits.push((48u8 + (rest % 10) as u8) as char);
        proof {
            let d = digit((rest % 10) as nat);
            assert(leading(rest as nat) =~= leading((rest / 10) as nat).push(d));
            assert(backwards(digits@) =~= seq![d] + backwards(before));
            assert(leading((rest / 10) as nat).push(d) + backwards(before) =~= leading(
                (rest / 10) as nat,
            ) + (seq![d] + backwards(before)));
        }
        rest = rest / 10;
    }
    let mut name = "./data/traces/gateway_".to_owned();
    let ghost head = name@;
    let mut left: usize = digits.len();
    while left > 0
        invariant
            left <= digits.len(),
            name@ == head + backwards(digits@).take(digits.len() - left),
        decreases left,
    {
        left -= 1;
        push_char(&mut name, digits[left]);
        assert(name@ =~= head + backwards(digits@).take(digits.len() - left));
    }
    assert(backwards(digits@).take(digits.len() as int) =~= backwards(digits@));
    let ghost stem = name@;
    push_char(&mut name, '.');
    push_char(&mut name, 'l');
    push_char(&mut name, 'o');
    push_char(&mut name, 'g');
    proof {
        reveal_strlit(".log");
        assert(".log"@ =~= seq!['.', 'l', 'o', 'g']);
        assert(name@ =~= stem + ".log"@);
    }
    name
}

} // verus!
