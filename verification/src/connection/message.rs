//! The messages of one text, ready to be sent: split, and a long one under a reference of its own.
use vstd::prelude::*;

use crate::connection::udh::{
    acquired_reference_is_new, acquires, are_bucket_ids, are_buckets_of, BucketView,
    UdhReferenceLease, UdhReferencePool,
};
use crate::encoding::{
    chosen_encoding, encoded, is_multipart, long_text_is_concatenated,
    multipart_has_several_segments, pieces, segment, segment_count, segments, UdhRefCounter,
};
use crate::error::{Error, Result};
use crate::pdu::{texts, Submit};
use crate::submit::{submit_views, SubmitOptions};
use crate::wire::SubmitView;

verus! {

/// The text of the error for a long message without a reference in its header.
pub open spec fn bad_header_text() -> Seq<char> {
    "long SMS UDH 无效"@
}

/// The text of the error when every reference towards a number is held.
pub open spec fn exhausted_text() -> Seq<char> {
    "同一短信重组域的 8-bit UDH reference 已全部占用"@
}

/// A message under another reference.
pub open spec fn under_reference(submit: SubmitView, reference: u8) -> SubmitView {
    SubmitView { msg_content: submit.msg_content.update(3, reference), ..submit }
}

/// Messages under another reference.
pub open spec fn all_under_reference(submits: Seq<SubmitView>, reference: u8) -> Seq<SubmitView> {
    submits.map_values(|s: SubmitView| under_reference(s, reference))
}

/// Whether a content is long enough to hold a reference.
pub open spec fn has_reference(submit: SubmitView) -> bool {
    submit.msg_content.len() > 3
}

/// The reference that the first of some messages carries.
pub fn preferred_reference(submits: &Vec<Submit>) -> (result: Result<u8>)
    ensures
        if submits@.len() > 0 && has_reference(submits@[0]@) {
            result matches Ok(r) && r == submits@[0]@.msg_content[3]
        } else {
            result matches Err(e) && e.is_config(bad_header_text())
        },
{
    if submits.len() > 0 && submits[0].msg_content.len() > 3 {
        Ok(submits[0].msg_content[3])
    } else {
        Err(Error::Config("long SMS UDH 无效".to_string()))
    }
}

/// Puts a reference into the header of every message, up to the first that has no place for it.
pub fn assign_reference(submits: &mut Vec<Submit>, reference: u8) -> (result: Result<()>)
    ensures
        if forall|i: int| 0 <= i < old(submits)@.len() ==> has_reference((#[trigger] old(submits)@[i])@) {
            &&& result is Ok
            &&& submit_views(final(submits)@) == all_under_reference(
                submit_views(old(submits)@),
                reference,
            )
        } else {
            &&& result matches Err(e) && e.is_config(bad_header_text())
            &&& final(submits)@.len() == old(submits)@.len()
            &&& exists|n: int|
                {
                    &&& 0 <= n < old(submits)@.len()
                    &&& !has_reference((#[trigger] old(submits)@[n])@)
                    &&& forall|i: int| 0 <= i < n ==> has_reference((#[trigger] old(submits)@[i])@)
                    &&& forall|i: int|
                        0 <= i < final(submits)@.len() ==> (#[trigger] final(submits)@[i])@ == if i
                            < n {
                            under_reference(old(submits)@[i]@, reference)
                        } else {
                            old(submits)@[i]@
                        }
                }
        },
{
    let ghost before = submits@;
    let count: usize = submits.len();
    let mut i: usize = 0;
    while i < count
        invariant
            i <= count,
            count == before.len(),
            before == old(submits)@,
            submits@.len() == count,
            forall|j: int| 0 <= j < i ==> has_reference((#[trigger] before[j])@),
            forall|j: int|
                0 <= j < count ==> (#[trigger] submits@[j])@ == if j < i {
                    under_reference(before[j]@, reference)
                } else {
                    before[j]@
                },
        decreases count - i,
    {
        let ghost round = submits@;
        if submits[i].msg_content.len() <= 3 {
            assert(!has_reference(before[i as int]@));
            return Err(Error::Config("long SMS UDH 无效".to_string()));
        }
        let submit: &mut Submit = &mut submits[i];
        submit.msg_content.set(3, reference);
        assert(submits@[i as int]@ =~= under_reference(before[i as int]@, reference));
        i = i + 1;
    }
    assert(submit_views(submits@) =~= all_under_reference(submit_views(before), reference));
    Ok(())
}

/// A long message that is built under one reference and put under another is the message built
/// under the other.
pub proof fn reference_can_be_changed(
    options: SubmitOptions,
    text: Seq<char>,
    built: u8,
    reference: u8,
)
    requires
        is_multipart(text),
    ensures
        all_under_reference(options.submits_for(text, built), reference) == options.submits_for(
            text,
            reference,
        ),
        forall|i: int|
            0 <= i < options.submits_for(text, built).len() ==> has_reference(
                #[trigger] options.submits_for(text, built)[i],
            ) && options.submits_for(text, built)[i].msg_content[3] == built,
        options.submits_for(text, built).len() == segment_count(text),
{
    let enc = chosen_encoding(text);
    let cut = pieces(text, enc);
    let old_submits = options.submits_for(text, built);
    let new_submits = options.submits_for(text, reference);
    assert forall|i: int| 0 <= i < cut.len() implies under_reference(old_submits[i], reference)
        == new_submits[i] && has_reference(old_submits[i]) && old_submits[i].msg_content[3]
        == built by {
        let from = segment(cut, enc, built, i);
        let to = segment(cut, enc, reference, i);
        assert(segments(text, built)[i] == from);
        assert(segments(text, reference)[i] == to);
        assert(from.content.update(3, reference) =~= to.content);
        assert(under_reference(old_submits[i], reference) =~= new_submits[i]);
    }
    assert(all_under_reference(old_submits, reference) =~= new_submits);
}

/// What preparing a text does, given the buckets of its source and destinations: it builds the
/// messages and, of a long text, puts them under the first reference that is free towards all
/// destinations, from the one that they were built under on.
pub open spec fn prepares(
    options: SubmitOptions,
    text: Seq<char>,
    ids: Seq<usize>,
    cooldown: u128,
    now: u128,
    before: UdhRefCounter,
    after: UdhRefCounter,
    pool: Seq<BucketView>,
    pool_after: Seq<BucketView>,
    result: Result<(Vec<Submit>, Option<UdhReferenceLease>)>,
) -> bool {
    match options.fault(text) {
        Some(fault) => {
            &&& result matches Err(e) && e.is_config(fault)
            &&& after == before
            &&& pool_after == pool
        },
        None if !is_multipart(text) => {
            &&& result matches Ok((submits, None)) && submit_views(submits@)
                == options.submits_for(text, 0)
            &&& after == before
            &&& pool_after == pool
        },
        None => {
            &&& after.follows(before)
            &&& match result {
                Ok((submits, Some(lease))) => {
                    &&& acquires(
                        pool,
                        pool_after,
                        ids,
                        before.reference(),
                        now,
                        Some(lease.held_reference()),
                    )
                    &&& lease.wf()
                    &&& lease.ids() == ids
                    &&& lease.cooldown() == cooldown
                    &&& !lease.exposed()
                    &&& submit_views(submits@) == options.submits_for(
                        text,
                        lease.held_reference(),
                    )
                },
                Ok((_, None)) => false,
                Err(e) => {
                    &&& e.is_config(exhausted_text())
                    &&& acquires(pool, pool_after, ids, before.reference(), now, None)
                },
            }
        },
    }
}

/// Prepares a text, given the buckets of its source and destinations.
pub fn prepare_with_buckets(
    options: &SubmitOptions,
    content: &str,
    references: &mut UdhRefCounter,
    pool: &mut UdhReferencePool,
    bucket_ids: Vec<usize>,
    cooldown: u128,
    now: u128,
) -> (result: Result<(Vec<Submit>, Option<UdhReferenceLease>)>)
    requires
        old(pool).wf(),
        are_bucket_ids(bucket_ids@),
    ensures
        final(pool).wf(),
        final(pool).seed() == old(pool).seed(),
        prepares(
            *options,
            content@,
            bucket_ids@,
            cooldown,
            now,
            *old(references),
            *final(references),
            old(pool).buckets(),
            final(pool).buckets(),
            result,
        ),
{
    let ghost built = old(references).reference();
    let mut submits: Vec<Submit> = options.try_build_submits(content, references)?;
    assert(submits@.len() == options.submits_for(content@, built).len()) by {
        assert(submit_views(submits@).len() == submits@.len());
    }
    proof {
        if is_multipart(content@) {
            multipart_has_several_segments(content@);
            reference_can_be_changed(*options, content@, built, built);
        }
    }
    if submits.len() > 1 {
        assert forall|i: int| 0 <= i < submits@.len() implies (#[trigger] submits@[i])@
            == options.submits_for(content@, built)[i] by {
            assert(submit_views(submits@)[i] == submits@[i]@);
        }
        let preferred: u8 = preferred_reference(&submits)?;
        let lease: UdhReferenceLease = match pool.try_acquire(
            bucket_ids,
            preferred,
            cooldown,
            now,
        ) {
            Some(lease) => lease,
            None => {
                return Err(
                    Error::Config(
                        "同一短信重组域的 8-bit UDH reference 已全部占用".to_string(),
                    ),
                );
            },
        };
        proof {
            reference_can_be_changed(*options, content@, built, lease.held_reference());
        }
        assign_reference(&mut submits, lease.reference())?;
        Ok((submits, Some(lease)))
    } else {
        Ok((submits, None))
    }
}

/// Prepares a text.
pub fn prepare_submits(
    options: &SubmitOptions,
    content: &str,
    references: &mut UdhRefCounter,
    pool: &mut UdhReferencePool,
    cooldown: u128,
    now: u128,
) -> (result: Result<(Vec<Submit>, Option<UdhReferenceLease>)>)
    requires
        old(pool).wf(),
    ensures
        final(pool).wf(),
        final(pool).seed() == old(pool).seed(),
        exists|ids: Seq<usize>|
            #![trigger are_bucket_ids(ids)]
            are_bucket_ids(ids) && are_buckets_of(
                ids,
                old(pool).seed(),
                options.src_id@,
                texts(options.dest_terminal_ids@),
            ) && prepares(
                *options,
                content@,
                ids,
                cooldown,
                now,
                *old(references),
                *final(references),
                old(pool).buckets(),
                final(pool).buckets(),
                result,
            ),
{
    let bucket_ids: Vec<usize> = pool.bucket_ids(
        options.src_id.as_str(),
        &options.dest_terminal_ids,
    );
    prepare_with_buckets(options, content, references, pool, bucket_ids, cooldown, now)
}

// ---- laws ----

/// Putting a message under a reference changes the fourth byte of its content and nothing else.
pub proof fn reference_is_the_fourth_byte(submit: SubmitView, reference: u8)
    requires
        submit.msg_content.len() >= 4,
    ensures
        ({
            let after = under_reference(submit, reference);
            &&& after.msg_content.len() == submit.msg_content.len()
            &&& after.msg_content[3] == reference
            &&& forall|i: int|
                0 <= i < submit.msg_content.len() && i != 3 ==> after.msg_content[i]
                    == submit.msg_content[i]
            &&& (SubmitView { msg_content: submit.msg_content, ..after }) == submit
        }),
        has_reference(submit),
{
}

/// A text of at most 140 bytes is prepared as one message that carries all of it, without a
/// reference: none is drawn and none is held for it. It is refused only for too many
/// destinations.
pub proof fn short_text_needs_no_reference(
    options: SubmitOptions,
    text: Seq<char>,
    ids: Seq<usize>,
    cooldown: u128,
    now: u128,
    before: UdhRefCounter,
    after: UdhRefCounter,
    pool: Seq<BucketView>,
    pool_after: Seq<BucketView>,
    result: Result<(Vec<Submit>, Option<UdhReferenceLease>)>,
)
    requires
        prepares(options, text, ids, cooldown, now, before, after, pool, pool_after, result),
        encoded(text, chosen_encoding(text)).len() <= 140,
    ensures
        after == before,
        pool_after == pool,
        result is Ok <==> options.dest_terminal_ids@.len() <= 255,
        result matches Ok((submits, lease)) ==> {
            &&& lease is None
            &&& submits@.len() == 1
            &&& submits@[0]@.msg_content == encoded(text, chosen_encoding(text))
            &&& submits@[0]@.tp_udhi == 0
        },
{
    if let Ok((submits, lease)) = result {
        assert(submit_views(submits@).len() == submits@.len());
        assert(submit_views(submits@)[0] == submits@[0]@);
    }
}

/// A text of more than 140 bytes is prepared under a reference that is held for it: every
/// message carries that reference in the fourth byte of its content, and the lease is for it,
/// for the buckets of the numbers and for the given time, with nothing on air yet. The counter
/// moves on by one. What was sent is told apart by its reference from whatever was held.
pub proof fn long_text_holds_its_reference(
    options: SubmitOptions,
    text: Seq<char>,
    ids: Seq<usize>,
    cooldown: u128,
    now: u128,
    before: UdhRefCounter,
    after: UdhRefCounter,
    pool: Seq<BucketView>,
    pool_after: Seq<BucketView>,
    result: Result<(Vec<Submit>, Option<UdhReferenceLease>)>,
    i: int,
    k: int,
)
    requires
        prepares(options, text, ids, cooldown, now, before, after, pool, pool_after, result),
        encoded(text, chosen_encoding(text)).len() > 140,
        pool.len() == 4096,
        are_bucket_ids(ids),
    ensures
        result matches Ok((submits, lease)) ==> {
            &&& lease matches Some(held) && held.ids() == ids && held.cooldown() == cooldown
                && !held.exposed()
            &&& submits@.len() == segment_count(text) && 2 <= submits@.len() <= 255
            &&& 0 <= i < submits@.len() ==> submits@[i]@.msg_content[3]
                == lease->0.held_reference() && submits@[i]@.tp_udhi == 1
                && submits@[i]@.pk_number == i + 1 && submits@[i]@.pk_total == submits@.len()
            &&& after.drawn() == (before.drawn() + 1) % 0x1_0000_0000
            &&& 0 <= k < ids.len() ==> !pool[ids[k] as int].held(
                lease->0.held_reference(),
                now,
            ) && pool_after[ids[k] as int].active.contains(lease->0.held_reference())
        },
        options.dest_terminal_ids@.len() > 255 || segment_count(text) > 255 ==> result is Err
            && after == before && pool_after == pool,
{
    if let Ok((submits, lease)) = result {
        let held = lease->0.held_reference();
        assert(submit_views(submits@).len() == submits@.len());
        assert(is_multipart(text));
        multipart_has_several_segments(text);
        reference_can_be_changed(options, text, held, held);
        long_text_is_concatenated(text, held);
        if 0 <= i < submits@.len() {
            assert(submit_views(submits@)[i] == submits@[i]@);
            assert(options.submits_for(text, held)[i] == options.submit_for(
                segments(text, held)[i],
            ));
        }
        if 0 <= k < ids.len() {
            acquired_reference_is_new(pool, pool_after, ids, before.reference(), now, held, k);
            assert(ids.contains(ids[k]));
        }
    }
}

} // verus!
