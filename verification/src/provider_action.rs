//! What a publish and subscribe service asks of a provider: the actions,
//! the topics to publish to, and the period of publishing.
use vstd::prelude::*;
use vstd::string::*;
use crate::entity_kind::text_is;
use crate::text::{ascii_len, char_at, dec_value, is_digit};

verus! {

/// An action that the service asks of a provider.
#[derive(Clone, Copy, Debug, PartialEq, Eq, Structural)]
pub enum ProviderAction {
    /// Start publishing to a topic.
    Publish,
    /// Stop publishing to a topic.
    StopPublish,
}

/// The action that a text names.
pub open spec fn action_of_text(text: Seq<char>) -> Option<ProviderAction> {
    if text == "PUBLISH"@ {
        Some(ProviderAction::Publish)
    } else if text == "STOP_PUBLISH"@ {
        Some(ProviderAction::StopPublish)
    } else {
        None
    }
}

/// The text that names an action.
pub open spec fn text_of_action(action: ProviderAction) -> Seq<char> {
    match action {
        ProviderAction::Publish => "PUBLISH"@,
        ProviderAction::StopPublish => "STOP_PUBLISH"@,
    }
}

impl ProviderAction {
    /// The action that `text` names: `PUBLISH` or `STOP_PUBLISH`, written
    /// exactly so.
    pub fn from_str(text: &str) -> (r: Option<ProviderAction>)
        ensures
            r == action_of_text(text@),
    {
        let owned: String = text.to_owned();
        if text_is(&owned, "PUBLISH") {
            Some(ProviderAction::Publish)
        } else if text_is(&owned, "STOP_PUBLISH") {
            Some(ProviderAction::StopPublish)
        } else {
            None
        }
    }

    /// The text that names the action.
    pub fn as_str(&self) -> (r: &'static str)
        ensures
            r@ == text_of_action(*self),
    {
        match self {
            ProviderAction::Publish => "PUBLISH",
            ProviderAction::StopPublish => "STOP_PUBLISH",
        }
    }

    /// The text that names the action.
    pub fn to_string(&self) -> (r: String)
        ensures
            r@ == text_of_action(*self),
    {
        self.as_str().to_owned()
    }
}

/// The text of an action names that action.
pub proof fn law_action_round_trip(action: ProviderAction)
    ensures
        action_of_text(text_of_action(action)) == Some(action),
{
    reveal_strlit("PUBLISH");
    reveal_strlit("STOP_PUBLISH");
    assert("PUBLISH"@.len() != "STOP_PUBLISH"@.len());
}

/// Position of the first topic called `topic`, if there is one.
pub fn find_topic(topics: &Vec<String>, topic: &String) -> (r: Option<usize>)
    ensures
        match r {
            Some(i) => i < topics@.len() && topics@[i as int]@ == topic@ && forall|j: int|
                0 <= j < i ==> (#[trigger] topics@[j])@ != topic@,
            None => forall|j: int| 0 <= j < topics@.len() ==> (#[trigger] topics@[j])@ != topic@,
        },
{
    let mut i: usize = 0;
    while i < topics.len()
        invariant
            i <= topics@.len(),
            forall|j: int| 0 <= j < i ==> (#[trigger] topics@[j])@ != topic@,
        decreases topics@.len() - i,
    {
        if topics[i] == *topic {
            return Some(i);
        }
        i += 1;
    }
    None
}

/// Takes the first topic called `topic` out of the list, putting the last
/// topic in its place. Tells whether there was one.
pub fn remove_topic(topics: &mut Vec<String>, topic: &String) -> (found: bool)
    ensures
        found <==> exists|i: int| 0 <= i < old(topics)@.len() && (#[trigger] old(topics)@[i])@ == topic@,
        !found ==> final(topics)@ == old(topics)@,
        found ==> exists|i: int|
            0 <= i < old(topics)@.len() && (#[trigger] old(topics)@[i])@ == topic@ && (forall|j: int|
                0 <= j < i ==> (#[trigger] old(topics)@[j])@ != topic@) && final(topics)@ == old(
                topics,
            )@.update(i, old(topics)@[old(topics)@.len() - 1]).drop_last(),
{
    match find_topic(topics, topic) {
        Some(i) => {
            let ghost before = topics@;
            let _gone = topics.swap_remove(i);
            assert(before[i as int]@ == topic@);
            true
        },
        None => false,
    }
}

/// The digits of a number text: what follows the `+`, where it starts with
/// one.
pub open spec fn digits_of(t: Seq<char>) -> Seq<char> {
    if t.len() > 0 && t[0] == '+' {
        t.skip(1)
    } else {
        t
    }
}

/// Whether every character is a decimal digit.
pub open spec fn all_digits(s: Seq<char>) -> bool {
    forall|i: int| 0 <= i < s.len() ==> is_digit(#[trigger] s[i])
}

/// The number that a text stands for: decimal digits, at least one, with or
/// without a `+` in front, and no more than 64 bits hold. Any other text
/// stands for none.
pub open spec fn unsigned_of_text(t: Seq<char>) -> Option<u64> {
    let digits = digits_of(t);
    if digits.len() > 0 && all_digits(digits) && dec_value(digits) <= u64::MAX {
        Some(dec_value(digits) as u64)
    } else {
        None
    }
}

/// A number is at least as large as what its first digits alone stand for.
pub proof fn lemma_dec_value_grows(s: Seq<char>, k: int)
    requires
        all_digits(s),
        0 <= k <= s.len(),
    ensures
        dec_value(s.take(k)) <= dec_value(s),
    decreases s.len(),
{
    if k < s.len() {
        let front = s.drop_last();
        assert forall|i: int| 0 <= i < front.len() implies is_digit(#[trigger] front[i]) by {
            assert(front[i] == s[i]);
        }
        lemma_dec_value_grows(front, k);
        assert(front.take(k) =~= s.take(k));
        assert(is_digit(s[s.len() - 1]));
    } else {
        assert(s.take(k) =~= s);
    }
}

/// Reads a number of up to 64 bits from a text.
pub fn parse_u64(text: &str) -> (r: Option<u64>)
    ensures
        r == unsigned_of_text(text@),
{
    if !text.is_ascii() {
        proof {
            let digits = digits_of(text@);
            if all_digits(digits) {
                assert forall|i: int| 0 <= i < text@.len() implies '\0' <= #[trigger] text@[i]
                    <= '\u{7f}' by {
                    if digits.len() == text@.len() {
                        assert(is_digit(digits[i]));
                    } else if i > 0 {
                        assert(is_digit(digits[i - 1]));
                    }
                }
            }
        }
        return None;
    }
    let n: usize = ascii_len(text);
    let start: usize = if n > 0 && char_at(text, 0) == '+' {
        1
    } else {
        0
    };
    let ghost digits = digits_of(text@);
    assert(digits =~= text@.skip(start as int));
    if start == n {
        return None;
    }
    let mut value: u64 = 0;
    let mut i: usize = start;
    assert(digits.take(0) =~= Seq::<char>::empty());
    while i < n
        invariant
            text.is_ascii(),
            n == text@.len(),
            start <= i <= n,
            start < n,
            digits == digits_of(text@),
            digits == text@.skip(start as int),
            forall|j: int| 0 <= j < i - start ==> is_digit(#[trigger] digits[j]),
            value == dec_value(digits.take(i - start)),
        decreases n - i,
    {
        let c: char = char_at(text, i);
        assert(digits[i - start] == c);
        if !('0' <= c && c <= '9') {
            return None;
        }
        let d: u64 = (c as u32 - 0x30) as u64;
        proof {
            assert(digits.take(i - start + 1).drop_last() =~= digits.take(i - start));
            assert(dec_value(digits.take(i - start + 1)) == value * 10 + d);
        }
        if value > (u64::MAX - d) / 10 {
            proof {
                if all_digits(digits) {
                    lemma_dec_value_grows(digits, i - start + 1);
                }
            }
            return None;
        }
        value = value * 10 + d;
        i += 1;
    }
    proof {
        assert(digits.take(n - start) =~= digits);
    }
    Some(value)
}

/// The constraints as kind and value, in order.
pub open spec fn constraint_views(constraints: Seq<(String, String)>) -> Seq<(Seq<char>, Seq<char>)> {
    constraints.map_values(|c: (String, String)| (c.0@, c.1@))
}

/// The period that the first `k` constraints ask for: the value of the last
/// of them that is of kind `kind`, or `min_interval_ms` where none is. Where
/// the value of one of that kind is no number, there is no period.
pub open spec fn period_upto(
    constraints: Seq<(Seq<char>, Seq<char>)>,
    kind: Seq<char>,
    min_interval_ms: u64,
    k: nat,
) -> Option<u64>
    decreases k,
{
    if k == 0 {
        Some(min_interval_ms)
    } else {
        match period_upto(constraints, kind, min_interval_ms, (k - 1) as nat) {
            None => None,
            Some(period) => if constraints[k - 1].0 == kind {
                unsigned_of_text(constraints[k - 1].1)
            } else {
                Some(period)
            },
        }
    }
}

/// The period that the constraints ask for.
pub open spec fn period_of(
    constraints: Seq<(Seq<char>, Seq<char>)>,
    kind: Seq<char>,
    min_interval_ms: u64,
) -> Option<u64> {
    period_upto(constraints, kind, min_interval_ms, constraints.len())
}

/// Once a value is no number, taking more constraints into account changes
/// nothing.
proof fn lemma_period_none(
    constraints: Seq<(Seq<char>, Seq<char>)>,
    kind: Seq<char>,
    min_interval_ms: u64,
    k1: nat,
    k2: nat,
)
    requires
        k1 <= k2,
        period_upto(constraints, kind, min_interval_ms, k1) is None,
    ensures
        period_upto(constraints, kind, min_interval_ms, k2) is None,
    decreases k2,
{
    if k1 < k2 {
        lemma_period_none(constraints, kind, min_interval_ms, k1, (k2 - 1) as nat);
    }
}

/// The period, in milliseconds, at which to publish: the value of the last
/// constraint of kind `kind`, or `min_interval_ms` where there is none.
/// `None` where the value of a constraint of that kind is no number.
pub fn publish_period(constraints: &Vec<(String, String)>, kind: &str, min_interval_ms: u64) -> (r:
    Option<u64>)
    ensures
        r == period_of(constraint_views(constraints@), kind@, min_interval_ms),
{
    let ghost views = constraint_views(constraints@);
    let mut period: u64 = min_interval_ms;
    let mut k: usize = 0;
    while k < constraints.len()
        invariant
            k <= constraints@.len(),
            views == constraint_views(constraints@),
            period_upto(views, kind@, min_interval_ms, k as nat) == Some(period),
        decreases constraints@.len() - k,
    {
        assert(views[k as int] == (constraints@[k as int].0@, constraints@[k as int].1@));
        if text_is(&constraints[k].0, kind) {
            match parse_u64(constraints[k].1.as_str()) {
                Some(value) => {
                    period = value;
                },
                None => {
                    proof {
                        lemma_period_none(
                            views,
                            kind@,
                            min_interval_ms,
                            (k + 1) as nat,
                            views.len(),
                        );
                    }
                    return None;
                },
            }
        }
        k += 1;
    }
    Some(period)
}

} // verus!
