//! The byte gate in its two modes: the strict one stops at the first byte
//! that may not be struck, the scan reports every such byte.

use crate::constraints::{
    all_legal, exceeds_limit, forbidden_description, forbidden_reason, legal, over_limit, MAX_BYTE,
};
use crate::error::{StrikeError, StrikeErrorView};
use crate::text::{push_numeral, upper_hex, zero_padded};
use vstd::prelude::*;
use vstd::string::StringExecFns;

verus! {

/// One byte that may not be struck, found by the scan.
#[derive(Debug, PartialEq, Eq)]
pub struct Contaminant {
    /// The byte's offset in the buffer.
    pub position: usize,
    /// The byte itself.
    pub value: u8,
    /// Which rule it breaks.
    pub description: String,
}

/// A finding with its text as a character sequence.
pub struct ContaminantView {
    pub position: int,
    pub value: u8,
    pub description: Seq<char>,
}

impl View for Contaminant {
    type V = ContaminantView;

    open spec fn view(&self) -> ContaminantView {
        ContaminantView {
            position: self.position as int,
            value: self.value,
            description: self.description@,
        }
    }
}

/// The findings of a list, each by its view.
pub open spec fn finding_views(found: Seq<Contaminant>) -> Seq<ContaminantView> {
    Seq::new(found.len(), |k: int| found[k]@)
}

/// The error that the strict gate gives for a byte that may not be struck.
/// The upper bound is tested first; the values banned by name are looked at
/// only for a byte that passed it.
pub open spec fn violation(byte: u8, position: int) -> StrikeErrorView
    recommends
        !legal(byte),
{
    if exceeds_limit(byte) {
        StrikeErrorView::ByteOutOfRange { position, value: byte }
    } else {
        StrikeErrorView::ForbiddenByte {
            position,
            value: byte,
            description: forbidden_reason(byte)->0,
        }
    }
}

/// What the scan says of a byte that may not be struck, by the same order of
/// rules as `violation`.
pub open spec fn contaminant_description(byte: u8) -> Seq<char>
    recommends
        !legal(byte),
{
    if exceeds_limit(byte) {
        "Non-ASCII (0x"@ + zero_padded(upper_hex(byte as nat), 2) + " > 127)"@
    } else {
        forbidden_reason(byte)->0
    }
}

/// The scan's finding for the byte at `position`, if it may not be struck.
pub open spec fn finding(byte: u8, position: int) -> Option<ContaminantView> {
    if legal(byte) {
        None
    } else {
        Some(
            ContaminantView {
                position,
                value: byte,
                description: contaminant_description(byte),
            },
        )
    }
}

/// `i` is the offset of the first byte of the buffer that may not be struck.
pub open spec fn first_offence_at(bytes: Seq<u8>, i: int) -> bool {
    &&& 0 <= i < bytes.len()
    &&& !legal(bytes[i])
    &&& forall|j: int| 0 <= j < i ==> legal(#[trigger] bytes[j])
}

/// The offset of the first byte that may not be struck, if there is one.
pub open spec fn first_contaminated(bytes: Seq<u8>) -> Option<int>
    decreases bytes.len(),
{
    if bytes.len() == 0 {
        None
    } else {
        match first_contaminated(bytes.drop_last()) {
            Some(i) => Some(i),
            None => if legal(bytes.last()) {
                None
            } else {
                Some(bytes.len() - 1)
            },
        }
    }
}

/// The findings of the whole buffer, in the order of the buffer.
pub open spec fn contaminants_of(bytes: Seq<u8>) -> Seq<ContaminantView>
    decreases bytes.len(),
{
    if bytes.len() == 0 {
        Seq::empty()
    } else {
        let before = contaminants_of(bytes.drop_last());
        match finding(bytes.last(), bytes.len() - 1) {
            Some(found) => before.push(found),
            None => before,
        }
    }
}

/// Tests one byte against both rules, the upper bound first.
pub fn validate_byte(byte: u8, position: usize) -> (verdict: Result<(), StrikeError>)
    ensures
        match verdict {
            Ok(()) => legal(byte),
            Err(e) => !legal(byte) && e@ == violation(byte, position as int),
        },
{
    if over_limit(byte) {
        return Err(StrikeError::ByteOutOfRange { position, value: byte });
    }
    match forbidden_description(byte) {
        Some(description) => Err(StrikeError::ForbiddenByte { position, value: byte, description }),
        None => Ok(()),
    }
}

/// The strict gate: passes a buffer of which every byte may be struck, and
/// fails with the error of the first byte that may not.
pub fn validate_strict(bytes: &[u8]) -> (verdict: Result<(), StrikeError>)
    ensures
        verdict is Ok <==> all_legal(bytes@),
        match verdict {
            Ok(()) => first_contaminated(bytes@) is None,
            Err(e) => first_contaminated(bytes@) matches Some(i) && first_offence_at(bytes@, i) && e@
                == violation(bytes@[i], i),
        },
{
    let mut i: usize = 0;
    while i < bytes.len()
        invariant
            i <= bytes@.len(),
            first_contaminated(bytes@.take(i as int)) is None,
        decreases bytes@.len() - i,
    {
        assert(bytes@.take(i + 1).drop_last() =~= bytes@.take(i as int));
        match validate_byte(bytes[i], i) {
            Ok(()) => {},
            Err(e) => {
                proof {
                    lemma_first_contaminated_prefix(bytes@, i + 1);
                    lemma_first_contaminated_is_least(bytes@);
                }
                return Err(e);
            },
        }
        i = i + 1;
    }
    assert(bytes@.take(i as int) =~= bytes@);
    proof {
        lemma_first_contaminated_is_least(bytes@);
    }
    Ok(())
}

/// The scan: every byte that may not be struck, in the order of the buffer.
/// It never stops early and never fails.
pub fn find_contaminants(bytes: &[u8]) -> (found: Vec<Contaminant>)
    ensures
        finding_views(found@) == contaminants_of(bytes@),
{
    let mut found: Vec<Contaminant> = Vec::new();
    let mut i: usize = 0;
    assert(finding_views(found@) =~= contaminants_of(bytes@.take(0)));
    while i < bytes.len()
        invariant
            i <= bytes@.len(),
            finding_views(found@) == contaminants_of(bytes@.take(i as int)),
        decreases bytes@.len() - i,
    {
        let byte = bytes[i];
        let ghost before = found@;
        assert(bytes@.take(i + 1).drop_last() =~= bytes@.take(i as int));
        if over_limit(byte) {
            let mut description = String::from_str("Non-ASCII (0x");
            push_numeral(&mut description, byte as usize, 16, true, 2);
            description.append(" > 127)");
            found.push(Contaminant { position: i, value: byte, description });
            assert(finding_views(found@) =~= finding_views(before).push(
                finding(byte, i as int)->0,
            ));
        } else {
            match forbidden_description(byte) {
                Some(description) => {
                    found.push(Contaminant { position: i, value: byte, description });
                    assert(finding_views(found@) =~= finding_views(before).push(
                        finding(byte, i as int)->0,
                    ));
                },
                None => {},
            }
        }
        i = i + 1;
    }
    assert(bytes@.take(i as int) =~= bytes@);
    found
}

/// A first contaminated byte of a prefix is the first of the whole buffer.
pub proof fn lemma_first_contaminated_prefix(bytes: Seq<u8>, n: int)
    requires
        0 <= n <= bytes.len(),
        first_contaminated(bytes.take(n)) is Some,
    ensures
        first_contaminated(bytes) == first_contaminated(bytes.take(n)),
    decreases bytes.len() - n,
{
    if n < bytes.len() {
        assert(bytes.take(n + 1).drop_last() =~= bytes.take(n));
        lemma_first_contaminated_prefix(bytes, n + 1);
    } else {
        assert(bytes.take(n) =~= bytes);
    }
}

/// The strict gate lets a single byte pass exactly when the byte is within
/// the upper bound and is not banned by name.
pub proof fn lemma_single_byte_gate(byte: u8)
    ensures
        first_contaminated(seq![byte]) is None <==> byte <= MAX_BYTE && forbidden_reason(byte)
            is None,
        first_contaminated(seq![byte]) is None <==> byte <= 127 && byte != 160 && byte != 194,
{
    assert(seq![byte].drop_last() =~= Seq::<u8>::empty());
    assert(first_contaminated(seq![byte].drop_last()) is None);
}

/// Both values banned by name lie above the upper bound. As the bound is
/// tested first, it is the bound's rule that reports them, in both modes.
pub proof fn lemma_bound_reports_banned_values(byte: u8, position: int)
    requires
        forbidden_reason(byte) is Some,
    ensures
        exceeds_limit(byte),
        violation(byte, position) == (StrikeErrorView::ByteOutOfRange { position, value: byte }),
        finding(byte, position) matches Some(found) && found.description == "Non-ASCII (0x"@
            + zero_padded(upper_hex(byte as nat), 2) + " > 127)"@,
{
}

/// What the strict gate reports is the least offset of a byte that may not
/// be struck; it reports none exactly when there is no such byte.
pub proof fn lemma_first_contaminated_is_least(bytes: Seq<u8>)
    ensures
        first_contaminated(bytes) is None <==> all_legal(bytes),
        first_contaminated(bytes) matches Some(i) ==> first_offence_at(bytes, i),
    decreases bytes.len(),
{
    if bytes.len() > 0 {
        let init = bytes.drop_last();
        lemma_first_contaminated_is_least(init);
        assert(forall|j: int| 0 <= j < init.len() ==> init[j] == bytes[j]);
        if first_contaminated(init) is None {
            assert(forall|j: int| 0 <= j < bytes.len() - 1 ==> legal(#[trigger] bytes[j])) by {
                assert(forall|j: int| 0 <= j < init.len() ==> legal(#[trigger] init[j]));
                assert(forall|j: int| 0 <= j < bytes.len() - 1 ==> bytes[j] == init[j]);
            }
        } else {
            let i = first_contaminated(init)->0;
            assert(!legal(bytes[i]));
            assert(forall|j: int| 0 <= j < i ==> legal(#[trigger] bytes[j])) by {
                assert(forall|j: int| 0 <= j < i ==> legal(#[trigger] init[j]));
            }
        }
    }
}

/// The two modes agree on pass and fail: the scan finds nothing exactly when
/// the strict gate lets the buffer pass.
pub proof fn lemma_modes_agree(bytes: Seq<u8>)
    ensures
        contaminants_of(bytes).len() == 0 <==> first_contaminated(bytes) is None,
    decreases bytes.len(),
{
    if bytes.len() > 0 {
        lemma_modes_agree(bytes.drop_last());
    }
}

/// The scan's findings follow the buffer: each stands at an offset of the
/// buffer and reports the byte found there, the offsets increase strictly
/// from one finding to the next, and no byte that may not be struck is left
/// out.
pub proof fn lemma_scan_positions(bytes: Seq<u8>)
    ensures
        contaminants_of(bytes).len() <= bytes.len(),
        forall|k: int|
            0 <= k < contaminants_of(bytes).len() ==> {
                let found = #[trigger] contaminants_of(bytes)[k];
                &&& 0 <= found.position < bytes.len()
                &&& finding(bytes[found.position], found.position) == Some(found)
            },
        forall|j: int, k: int|
            0 <= j < k < contaminants_of(bytes).len() ==> (#[trigger] contaminants_of(
                bytes,
            )[j]).position < (#[trigger] contaminants_of(bytes)[k]).position,
        forall|i: int|
            0 <= i < bytes.len() && !legal(#[trigger] bytes[i]) ==> exists|k: int|
                0 <= k < contaminants_of(bytes).len() && (#[trigger] contaminants_of(
                    bytes,
                )[k]).position == i,
    decreases bytes.len(),
{
    if bytes.len() > 0 {
        let init = bytes.drop_last();
        let before = contaminants_of(init);
        let all = contaminants_of(bytes);
        lemma_scan_positions(init);
        assert(forall|k: int| 0 <= k < before.len() ==> all[k] == before[k]);
        assert forall|k: int| 0 <= k < all.len() implies {
            let found = #[trigger] all[k];
            &&& 0 <= found.position < bytes.len()
            &&& finding(bytes[found.position], found.position) == Some(found)
        } by {
            if k < before.len() {
                let found = before[k];
                assert(init[found.position] == bytes[found.position]);
            }
        }
        assert forall|j: int, k: int| 0 <= j < k < all.len() implies (#[trigger] all[j]).position
            < (#[trigger] all[k]).position by {
            if k < before.len() {
                assert(before[j].position < before[k].position);
            } else {
                assert(before[j].position < init.len());
            }
        }
        assert forall|i: int| 0 <= i < bytes.len() && !legal(#[trigger] bytes[i]) implies exists|
            k: int,
        |
            0 <= k < all.len() && (#[trigger] all[k]).position == i by {
            if i < init.len() {
                assert(init[i] == bytes[i]);
                let k = choose|k: int| 0 <= k < before.len() && (#[trigger] before[k]).position == i;
                assert(all[k].position == i);
            } else {
                assert(all[all.len() - 1].position == i);
            }
        }
    }
}

} // verus!
