use vstd::prelude::*;
use vstd::string::StringExecFns;

verus! {

/// The decimal digits of a number, most significant first, without leading
/// zeros.
pub open spec fn decimal(n: nat) -> Seq<char>
    decreases n,
{
    if n < 10 {
        seq![digit_char(n)]
    } else {
        decimal(n / 10).push(digit_char(n % 10))
    }
}

/// The character of a decimal digit.
pub open spec fn digit_char(d: nat) -> char {
    (48 + d) as char
}

/// The text that the demo client shows for its connection's round-trip time
/// and jitter, in whole milliseconds.
pub open spec fn ping_text(rtt: nat, jitter: nat) -> Seq<char> {
    "ping: "@ + decimal(rtt) + " +/- "@ + decimal(jitter)
}

/// The number that a text of decimal digits stands for.
pub open spec fn decimal_value(digits: Seq<char>) -> int
    decreases digits.len(),
{
    if digits.len() == 0 {
        0
    } else {
        decimal_value(digits.drop_last()) * 10 + (digits.last() as int - 48)
    }
}

/// `decimal(n)` is the decimal numeral of `n`: it consists of the digits
/// `0`-`9`, stands for `n`, and has no leading zero (only `0` itself starts
/// with `0`).
pub proof fn lemma_decimal_is_the_numeral(n: nat)
    ensures
        decimal(n).len() >= 1,
        forall|i: int| 0 <= i < decimal(n).len() ==> '0' <= #[trigger] decimal(n)[i] <= '9',
        decimal_value(decimal(n)) == n,
        decimal(n)[0] == '0' ==> n == 0 && decimal(n).len() == 1,
    decreases n,
{
    if n >= 10 {
        lemma_decimal_is_the_numeral(n / 10);
        let d = decimal(n);
        let p = decimal(n / 10);
        assert(d.drop_last() =~= p);
        assert forall|i: int| 0 <= i < d.len() implies '0' <= #[trigger] d[i] <= '9' by {
            if i < p.len() {
                assert(d[i] == p[i]);
            }
        }
        assert(d[0] == p[0]);
        assert(digit_char(n % 10) as int == 48 + n % 10);
        assert(decimal_value(d) == decimal_value(p) * 10 + (d.last() as int - 48));
        assert((n / 10) * 10 + n % 10 == n);
    } else {
        let d = decimal(n);
        assert(digit_char(n) as int == 48 + n);
        assert(d.drop_last() =~= Seq::<char>::empty());
        assert(decimal_value(d) == decimal_value(d.drop_last()) * 10 + (d.last() as int - 48));
    }
}

/// The ping text is `ping: `, the round-trip time's numeral, ` +/- `, and the
/// jitter's numeral.
pub proof fn lemma_ping_text_shows_both_numbers(rtt: nat, jitter: nat)
    ensures
        ping_text(rtt, jitter) == "ping: "@ + decimal(rtt) + " +/- "@ + decimal(jitter),
{
}

/// Calls `String::push`, which appends one character.
#[verifier::external_body]
fn push_char(s: &mut String, c: char)
    ensures
        final(s)@ == old(s)@.push(c),
{
    s.push(c)
}

/// The decimal text of a number.
pub fn decimal_text(n: u32) -> (text: String)
    ensures
        text@ == decimal(n as nat),
{
    let mut digits: Vec<char> = Vec::new();
    let mut rest: u32 = n;
    let mut first = true;
    while first || rest > 0
        invariant
            first ==> rest == n && digits@.len() == 0,
            !first ==> decimal(n as nat) == (if rest == 0 {
                Seq::<char>::empty()
            } else {
                decimal(rest as nat)
            }) + digits@.reverse(),
        decreases rest as int + if first {
            1int
        } else {
            0int
        },
    {
        let d = rest % 10;
        let c = ((48 + d) as u8) as char;
        let ghost before = digits@;
        proof {
            assert(c == digit_char(d as nat));
            lemma_decimal_last(rest as nat);
        }
        digits.push(c);
        proof {
            assert(digits@.reverse() =~= seq![c] + before.reverse());
        }
        rest = rest / 10;
        first = false;
        proof {
            if rest == 0 {
                assert(decimal(n as nat) =~= Seq::<char>::empty() + digits@.reverse());
            } else {
                assert(decimal(n as nat) =~= decimal(rest as nat) + digits@.reverse());
            }
        }
    }
    let mut text = String::new();
    let mut i = digits.len();
    while i > 0
        invariant
            i <= digits@.len(),
            decimal(n as nat) == text@ + digits@.subrange(0, i as int).reverse(),
        decreases i,
    {
        push_char(&mut text, digits[i - 1]);
        i = i - 1;
    }
    text
}

proof fn lemma_decimal_last(r: nat)
    ensures
        decimal(r) == (if r / 10 == 0 {
            Seq::<char>::empty()
        } else {
            decimal(r / 10)
        }).push(digit_char(r % 10)),
{
    if r < 10 {
        assert(seq![digit_char(r)] =~= Seq::<char>::empty().push(digit_char(r)));
    }
}

/// The ping text of the demo client.
pub fn format_ping(rtt: u32, jitter: u32) -> (text: String)
    ensures
        text@ == ping_text(rtt as nat, jitter as nat),
        text@ == "ping: "@ + decimal(rtt as nat) + " +/- "@ + decimal(jitter as nat),
{
    let mut text = "ping: ".to_owned();
    let r = decimal_text(rtt);
    text.append(r.as_str());
    text.append(" +/- ");
    let j = decimal_text(jitter);
    text.append(j.as_str());
    text
}

/// The entity that the demo client controls, as the server confirms it and
/// as the client predicts it.
pub struct OwnedEntity<E> {
    pub confirmed: E,
    pub predicted: E,
}

impl<E> OwnedEntity<E> {
    /// Pairs the confirmed entity with its prediction.
    pub fn new(confirmed_entity: E, predicted_entity: E) -> (owned: Self)
        ensures
            owned.confirmed == confirmed_entity,
            owned.predicted == predicted_entity,
    {
        OwnedEntity { confirmed: confirmed_entity, predicted: predicted_entity }
    }
}

} // verus!
