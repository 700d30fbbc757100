//! Business metadata extraction from a message `Document`: well-known ISO 20022
//! elements read by local name, so it works on any message version. It is
//! best-effort: fields not present in a given message are `None`.

use vstd::prelude::*;
use crate::app_hdr::{non_empty, opt_str};
use crate::text::chars_of;
use crate::xml_scan::{element_attr, element_attr_of, element_text, element_text_of};

verus! {

/// Common business metadata extracted from a message.
#[derive(Debug, Clone, Default, PartialEq, Eq)]
pub struct MessageMetadata {
    /// Group-header message identifier (`GrpHdr/MsgId`).
    pub message_id: Option<String>,
    /// Group-header creation date/time (`GrpHdr/CreDtTm`).
    pub creation_date_time: Option<String>,
    /// Number of transactions (`GrpHdr/NbOfTxs`).
    pub number_of_transactions: Option<String>,
    /// The first settlement/instructed amount found, as text.
    pub amount: Option<String>,
    /// The currency (`Ccy`) of that amount.
    pub currency: Option<String>,
    /// The settlement / requested execution date.
    pub value_date: Option<String>,
}

/// The mathematical value of a [`MessageMetadata`].
pub struct MessageMetadataV {
    pub message_id: Option<Seq<char>>,
    pub creation_date_time: Option<Seq<char>>,
    pub number_of_transactions: Option<Seq<char>>,
    pub amount: Option<Seq<char>>,
    pub currency: Option<Seq<char>>,
    pub value_date: Option<Seq<char>>,
}

impl View for MessageMetadata {
    type V = MessageMetadataV;

    open spec fn view(&self) -> MessageMetadataV {
        MessageMetadataV {
            message_id: opt_str(self.message_id),
            creation_date_time: opt_str(self.creation_date_time),
            number_of_transactions: opt_str(self.number_of_transactions),
            amount: opt_str(self.amount),
            currency: opt_str(self.currency),
            value_date: opt_str(self.value_date),
        }
    }
}

/// Amount element names to look for, in priority order.
pub open spec fn amount_tags() -> Seq<Seq<char>> {
    seq![
        "TtlIntrBkSttlmAmt"@,
        "IntrBkSttlmAmt"@,
        "InstdAmt"@,
        "EqvtAmt"@,
        "TtlInstdAmt"@,
        "Amt"@,
    ]
}

/// Date element names to look for, in priority order.
pub open spec fn date_tags() -> Seq<Seq<char>> {
    seq!["IntrBkSttlmDt"@, "ReqdExctnDt"@, "ReqdColltnDt"@, "IntrBkSttlmDtTm"@]
}

/// The first tag of `tags` whose element has non-empty text: that text and
/// the `Ccy` attribute of the same element.
pub open spec fn amount_from(s: Seq<char>, tags: Seq<Seq<char>>) -> Option<
    (Seq<char>, Option<Seq<char>>),
>
    decreases tags.len(),
{
    if tags.len() == 0 {
        None
    } else {
        match non_empty(element_text(s, tags[0])) {
            Some(v) => Some((v, element_attr(s, tags[0], "Ccy"@))),
            None => amount_from(s, tags.drop_first()),
        }
    }
}

/// The text of the first tag of `tags` whose element is present (possibly empty).
pub open spec fn first_text(s: Seq<char>, tags: Seq<Seq<char>>) -> Option<Seq<char>>
    decreases tags.len(),
{
    if tags.len() == 0 {
        None
    } else {
        match element_text(s, tags[0]) {
            Some(v) => Some(v),
            None => first_text(s, tags.drop_first()),
        }
    }
}

/// The metadata of message `s`.
pub open spec fn spec_extract(s: Seq<char>) -> MessageMetadataV {
    let amt = amount_from(s, amount_tags());
    MessageMetadataV {
        message_id: non_empty(element_text(s, "MsgId"@)),
        creation_date_time: non_empty(element_text(s, "CreDtTm"@)),
        number_of_transactions: non_empty(element_text(s, "NbOfTxs"@)),
        amount: match amt {
            Some((v, _)) => Some(v),
            None => None,
        },
        currency: match amt {
            Some((_, c)) => c,
            None => None,
        },
        value_date: non_empty(first_text(s, date_tags())),
    }
}

fn text_of(v: &[char], tag: &str) -> (r: Option<String>)
    ensures
        opt_str(r) == element_text(v@, tag@),
{
    let t = chars_of(tag);
    element_text_of(v, t.as_slice())
}

fn non_empty_of(v: &[char], tag: &str) -> (r: Option<String>)
    ensures
        opt_str(r) == non_empty(element_text(v@, tag@)),
{
    match text_of(v, tag) {
        Some(x) => if x.as_str().is_empty() {
            None
        } else {
            Some(x)
        },
        None => None,
    }
}

fn amount_exec(v: &[char]) -> (r: Option<(String, Option<String>)>)
    ensures
        match amount_from(v@, amount_tags()) {
            Some((a, c)) => r matches Some((x, y)) && x@ == a && opt_str(y) == c,
            None => r is None,
        },
{
    let tags = ["TtlIntrBkSttlmAmt", "IntrBkSttlmAmt", "InstdAmt", "EqvtAmt", "TtlInstdAmt", "Amt"];
    let ccy = chars_of("Ccy");
    let mut k: usize = 0;
    assert(amount_tags().subrange(0, 6) =~= amount_tags());
    while k < 6
        invariant
            k <= 6,
            ccy@ == "Ccy"@,
            forall|i: int| 0 <= i < 6 ==> #[trigger] tags@[i]@ == amount_tags()[i],
            amount_from(v@, amount_tags()) == amount_from(v@, amount_tags().subrange(k as int, 6)),
        decreases 6 - k,
    {
        assert(amount_tags().subrange(k as int, 6).drop_first() =~= amount_tags().subrange(
            k + 1,
            6,
        ));
        assert(amount_tags().subrange(k as int, 6)[0] == amount_tags()[k as int]);
        let tag = tags[k];
        match non_empty_of(v, tag) {
            Some(a) => {
                let t = chars_of(tag);
                let c = element_attr_of(v, t.as_slice(), ccy.as_slice());
                return Some((a, c));
            },
            None => {},
        }
        k = k + 1;
    }
    None
}

fn value_date_exec(v: &[char]) -> (r: Option<String>)
    ensures
        opt_str(r) == non_empty(first_text(v@, date_tags())),
{
    let tags = ["IntrBkSttlmDt", "ReqdExctnDt", "ReqdColltnDt", "IntrBkSttlmDtTm"];
    let mut k: usize = 0;
    assert(date_tags().subrange(0, 4) =~= date_tags());
    while k < 4
        invariant
            k <= 4,
            forall|i: int| 0 <= i < 4 ==> #[trigger] tags@[i]@ == date_tags()[i],
            first_text(v@, date_tags()) == first_text(v@, date_tags().subrange(k as int, 4)),
        decreases 4 - k,
    {
        assert(date_tags().subrange(k as int, 4).drop_first() =~= date_tags().subrange(k + 1, 4));
        assert(date_tags().subrange(k as int, 4)[0] == date_tags()[k as int]);
        match text_of(v, tags[k]) {
            Some(x) => {
                if x.as_str().is_empty() {
                    return None;
                }
                return Some(x);
            },
            None => {},
        }
        k = k + 1;
    }
    None
}

/// Extract [`MessageMetadata`] from message XML.
pub fn extract(xml: &str) -> (r: MessageMetadata)
    ensures
        r@ == spec_extract(xml@),
{
    let v = chars_of(xml);
    let (amount, currency) = match amount_exec(v.as_slice()) {
        Some((a, c)) => (Some(a), c),
        None => (None, None),
    };
    MessageMetadata {
        message_id: non_empty_of(v.as_slice(), "MsgId"),
        creation_date_time: non_empty_of(v.as_slice(), "CreDtTm"),
        number_of_transactions: non_empty_of(v.as_slice(), "NbOfTxs"),
        amount,
        currency,
        value_date: value_date_exec(v.as_slice()),
    }
}

/// The total interbank settlement amount, when present, is the amount
/// reported, with its own currency, ahead of any per-transaction amount.
pub proof fn lemma_total_amount_preferred(s: Seq<char>)
    requires
        non_empty(element_text(s, "TtlIntrBkSttlmAmt"@)) is Some,
    ensures
        spec_extract(s).amount == non_empty(element_text(s, "TtlIntrBkSttlmAmt"@)),
        spec_extract(s).currency == element_attr(s, "TtlIntrBkSttlmAmt"@, "Ccy"@),
{
}

proof fn lemma_amount_from_source(s: Seq<char>, tags: Seq<Seq<char>>)
    ensures
        amount_from(s, tags) matches Some((v, c)) ==> exists|k: int|
            0 <= k < tags.len() && non_empty(element_text(s, #[trigger] tags[k])) == Some(v) && c
                == element_attr(s, tags[k], "Ccy"@),
    decreases tags.len(),
{
    if tags.len() > 0 {
        match non_empty(element_text(s, tags[0])) {
            Some(v) => {
                assert(non_empty(element_text(s, tags[0])) == Some(v));
            },
            None => {
                lemma_amount_from_source(s, tags.drop_first());
                if let Some((v, c)) = amount_from(s, tags) {
                    let rest = tags.drop_first();
                    let k = choose|k: int|
                        0 <= k < rest.len() && non_empty(element_text(s, #[trigger] rest[k]))
                            == Some(v) && c == element_attr(s, rest[k], "Ccy"@);
                    assert(rest[k] == tags[k + 1]);
                }
            },
        }
    }
}

/// The amount and the currency come from one and the same element: the first
/// amount element, in priority order, with non-empty text.
pub proof fn lemma_amount_and_currency_agree(s: Seq<char>)
    ensures
        spec_extract(s).amount matches Some(v) ==> exists|k: int|
            0 <= k < amount_tags().len() && non_empty(element_text(s, #[trigger] amount_tags()[k]))
                == Some(v) && spec_extract(s).currency == element_attr(s, amount_tags()[k], "Ccy"@),
        spec_extract(s).amount is None ==> spec_extract(s).currency is None,
{
    lemma_amount_from_source(s, amount_tags());
}

proof fn lemma_amount_from_least(s: Seq<char>, tags: Seq<Seq<char>>, k: int)
    requires
        0 <= k < tags.len(),
        non_empty(element_text(s, tags[k])) is Some,
        forall|j: int| 0 <= j < k ==> non_empty(element_text(s, #[trigger] tags[j])) is None,
    ensures
        amount_from(s, tags) == Some(
            (non_empty(element_text(s, tags[k])).unwrap(), element_attr(s, tags[k], "Ccy"@)),
        ),
    decreases k,
{
    if k > 0 {
        let rest = tags.drop_first();
        assert(non_empty(element_text(s, tags[0])) is None);
        assert forall|j: int| 0 <= j < k - 1 implies non_empty(element_text(s, #[trigger] rest[j]))
            is None by {
            assert(rest[j] == tags[j + 1]);
        }
        assert(rest[k - 1] == tags[k]);
        lemma_amount_from_least(s, rest, k - 1);
    }
}

proof fn lemma_amount_from_none(s: Seq<char>, tags: Seq<Seq<char>>)
    requires
        forall|j: int| 0 <= j < tags.len() ==> non_empty(element_text(s, #[trigger] tags[j])) is None,
    ensures
        amount_from(s, tags) is None,
    decreases tags.len(),
{
    if tags.len() > 0 {
        let rest = tags.drop_first();
        assert(non_empty(element_text(s, tags[0])) is None);
        assert forall|j: int| 0 <= j < rest.len() implies non_empty(element_text(s, #[trigger] rest[j]))
            is None by {
            assert(rest[j] == tags[j + 1]);
        }
        lemma_amount_from_none(s, rest);
    }
}

proof fn lemma_first_text_least(s: Seq<char>, tags: Seq<Seq<char>>, k: int)
    requires
        0 <= k < tags.len(),
        element_text(s, tags[k]) is Some,
        forall|j: int| 0 <= j < k ==> element_text(s, #[trigger] tags[j]) is None,
    ensures
        first_text(s, tags) == element_text(s, tags[k]),
    decreases k,
{
    if k > 0 {
        let rest = tags.drop_first();
        assert(element_text(s, tags[0]) is None);
        assert forall|j: int| 0 <= j < k - 1 implies element_text(s, #[trigger] rest[j]) is None by {
            assert(rest[j] == tags[j + 1]);
        }
        assert(rest[k - 1] == tags[k]);
        lemma_first_text_least(s, rest, k - 1);
    }
}

proof fn lemma_first_text_none(s: Seq<char>, tags: Seq<Seq<char>>)
    requires
        forall|j: int| 0 <= j < tags.len() ==> element_text(s, #[trigger] tags[j]) is None,
    ensures
        first_text(s, tags) is None,
    decreases tags.len(),
{
    if tags.len() > 0 {
        let rest = tags.drop_first();
        assert(element_text(s, tags[0]) is None);
        assert forall|j: int| 0 <= j < rest.len() implies element_text(s, #[trigger] rest[j]) is None by {
            assert(rest[j] == tags[j + 1]);
        }
        lemma_first_text_none(s, rest);
    }
}

/// The priority rules of `extract`, by least index: the amount and currency
/// come from the first amount element, in priority order, whose text is not
/// empty (both `None` when there is none); the value date is the text of the
/// first date element present, `None` when that text is empty or no date
/// element is present.
pub proof fn lemma_extract_priorities(s: Seq<char>)
    ensures
        forall|k: int|
            0 <= k < amount_tags().len() && non_empty(element_text(s, #[trigger] amount_tags()[k]))
                is Some && (forall|j: int|
                0 <= j < k ==> non_empty(element_text(s, #[trigger] amount_tags()[j])) is None)
                ==> spec_extract(s).amount == non_empty(element_text(s, amount_tags()[k]))
                && spec_extract(s).currency == element_attr(s, amount_tags()[k], "Ccy"@),
        (forall|j: int|
            0 <= j < amount_tags().len() ==> non_empty(element_text(s, #[trigger] amount_tags()[j]))
                is None) ==> spec_extract(s).amount is None && spec_extract(s).currency is None,
        forall|k: int|
            0 <= k < date_tags().len() && element_text(s, #[trigger] date_tags()[k]) is Some && (
            forall|j: int| 0 <= j < k ==> element_text(s, #[trigger] date_tags()[j]) is None)
                ==> spec_extract(s).value_date == non_empty(element_text(s, date_tags()[k])),
        (forall|j: int| 0 <= j < date_tags().len() ==> element_text(s, #[trigger] date_tags()[j]) is None)
            ==> spec_extract(s).value_date is None,
{
    assert forall|k: int|
        0 <= k < amount_tags().len() && non_empty(element_text(s, #[trigger] amount_tags()[k])) is Some
            && (forall|j: int|
            0 <= j < k ==> non_empty(element_text(s, #[trigger] amount_tags()[j])) is None) implies
        spec_extract(s).amount == non_empty(element_text(s, amount_tags()[k]))
            && spec_extract(s).currency == element_attr(s, amount_tags()[k], "Ccy"@) by {
        lemma_amount_from_least(s, amount_tags(), k);
    }
    if forall|j: int|
        0 <= j < amount_tags().len() ==> non_empty(element_text(s, #[trigger] amount_tags()[j])) is None {
        lemma_amount_from_none(s, amount_tags());
    }
    assert forall|k: int|
        0 <= k < date_tags().len() && element_text(s, #[trigger] date_tags()[k]) is Some && (forall|
            j: int,
        | 0 <= j < k ==> element_text(s, #[trigger] date_tags()[j]) is None) implies spec_extract(
        s,
    ).value_date == non_empty(element_text(s, date_tags()[k])) by {
        lemma_first_text_least(s, date_tags(), k);
    }
    if forall|j: int| 0 <= j < date_tags().len() ==> element_text(s, #[trigger] date_tags()[j]) is None {
        lemma_first_text_none(s, date_tags());
    }
}

} // verus!
