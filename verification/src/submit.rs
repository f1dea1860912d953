//! SUBMIT messages from a text and the fields that its segments share.
use vstd::prelude::*;
use vstd::std_specs::convert::*;

use crate::encoding::{
    content_text, counted, is_multipart, joined, segment_count, segment_texts, segment_views,
    segments, segments_carry_the_text, too_many_segments_text, try_split_content, SegmentView,
    SmsSegment, UdhRefCounter, MAX_SEGMENTS, SINGLE_MAX_BYTES,
};
use crate::error::{Error, Result};
use crate::pdu::{texts, Submit};
use crate::wire::SubmitView;

verus! {

/// The fields that every segment of a message shares. Those that belong to one segment
/// (`msg_fmt`, `tp_udhi`, `pk_total`, `pk_number`, `msg_content`) come from the text.
#[derive(Debug, Clone)]
pub struct SubmitOptions {
    /// Service id, 10 octets.
    pub service_id: String,
    /// Message source (SP id), 6 octets.
    pub msg_src: String,
    /// Source id (access number, an extension may follow), 21 octets.
    pub src_id: String,
    /// The numbers that the message goes to.
    pub dest_terminal_ids: Vec<String>,
    /// 1 asks for a status report.
    pub registered_delivery: u8,
    /// Priority.
    pub msg_level: u8,
    /// Fee user type.
    pub fee_user_type: u8,
    /// Fee terminal id, 21 octets.
    pub fee_terminal_id: String,
    /// Fee type, 2 octets.
    pub fee_type: String,
    /// Fee code, 6 octets.
    pub fee_code: String,
    /// GSM TP-PID.
    pub tp_pid: u8,
    /// Validity period, 17 octets.
    pub valid_time: String,
    /// Scheduled delivery time, 17 octets.
    pub at_time: String,
}

/// `String::from` of a `&str`: the same characters.
pub assume_specification<'b, 'a>[ <String as core::convert::From<&'b str>>::from ](a: &'a str) -> (ret:
    String)
    ensures
        ret@ == a@,
;

/// The views of some messages.
pub open spec fn submit_views(submits: Seq<Submit>) -> Seq<SubmitView> {
    submits.map_values(|s: Submit| s@)
}

/// What keeps a message to `destinations` numbers, of `segments` segments, from being built, if
/// anything does.
pub open spec fn build_fault(destinations: nat, segments: nat) -> Option<Seq<char>> {
    if destinations > 255 {
        Some("SUBMIT destination 数量超过 255"@)
    } else if segments > MAX_SEGMENTS {
        Some(too_many_segments_text())
    } else {
        None
    }
}

impl SubmitOptions {
    /// The message that carries one segment.
    pub open spec fn submit_for(self, segment: SegmentView) -> SubmitView {
        SubmitView {
            msg_id: Seq::new(8, |i: int| 0u8),
            pk_total: segment.pk_total,
            pk_number: segment.pk_number,
            registered_delivery: self.registered_delivery,
            msg_level: self.msg_level,
            service_id: self.service_id@,
            fee_user_type: self.fee_user_type,
            fee_terminal_id: self.fee_terminal_id@,
            tp_pid: self.tp_pid,
            tp_udhi: segment.tp_udhi,
            msg_fmt: segment.msg_fmt,
            msg_src: self.msg_src@,
            fee_type: self.fee_type@,
            fee_code: self.fee_code@,
            valid_time: self.valid_time@,
            at_time: self.at_time@,
            src_id: self.src_id@,
            dest_terminal_ids: texts(self.dest_terminal_ids@),
            msg_content: segment.content,
        }
    }

    /// The messages that carry a text, the reference of a concatenated one given.
    pub open spec fn submits_for(self, text: Seq<char>, reference: u8) -> Seq<SubmitView> {
        segments(text, reference).map_values(|s: SegmentView| self.submit_for(s))
    }

    /// What keeps a text from being sent, if anything does.
    pub open spec fn fault(self, text: Seq<char>) -> Option<Seq<char>> {
        build_fault(self.dest_terminal_ids@.len(), segment_count(text))
    }

    /// The given routing fields, and defaults for the others.
    pub fn new<A: Into<String>, B: Into<String>, C: Into<String>, D: Into<String>>(
        service_id: A,
        msg_src: B,
        src_id: C,
        dest_terminal_id: D,
    ) -> (options: SubmitOptions)
        ensures
            call_ensures(<A as Into<String>>::into, (service_id,), options.service_id),
            call_ensures(<B as Into<String>>::into, (msg_src,), options.msg_src),
            call_ensures(<C as Into<String>>::into, (src_id,), options.src_id),
            options.dest_terminal_ids@.len() == 1,
            call_ensures(
                <D as Into<String>>::into,
                (dest_terminal_id,),
                options.dest_terminal_ids@[0],
            ),
            options.registered_delivery == 1,
            options.msg_level == 0,
            options.fee_user_type == 2,
            options.fee_terminal_id@ == Seq::<char>::empty(),
            options.fee_type@ == "01"@,
            options.fee_code@ == "000000"@,
            options.tp_pid == 0,
            options.valid_time@ == Seq::<char>::empty(),
            options.at_time@ == Seq::<char>::empty(),
    {
        SubmitOptions {
            service_id: service_id.into(),
            msg_src: msg_src.into(),
            src_id: src_id.into(),
            dest_terminal_ids: vec![dest_terminal_id.into()],
            registered_delivery: 1,
            msg_level: 0,
            fee_user_type: 2,
            fee_terminal_id: String::new(),
            fee_type: "01".into(),
            fee_code: "000000".into(),
            tp_pid: 0,
            valid_time: String::new(),
            at_time: String::new(),
        }
    }

    /// Replaces the numbers that the message goes to.
    pub fn dest_terminal_ids(self, ids: Vec<String>) -> (options: SubmitOptions)
        ensures
            options == (SubmitOptions { dest_terminal_ids: ids, ..self }),
    {
        let mut options: SubmitOptions = self;
        options.dest_terminal_ids = ids;
        options
    }

    /// Sets whether a status report is asked for.
    pub fn registered_delivery(self, v: u8) -> (options: SubmitOptions)
        ensures
            options == (SubmitOptions { registered_delivery: v, ..self }),
    {
        let mut options: SubmitOptions = self;
        options.registered_delivery = v;
        options
    }

    /// Sets the priority.
    pub fn msg_level(self, v: u8) -> (options: SubmitOptions)
        ensures
            options == (SubmitOptions { msg_level: v, ..self }),
    {
        let mut options: SubmitOptions = self;
        options.msg_level = v;
        options
    }

    /// Sets the fee fields.
    pub fn fee<A: Into<String>, B: Into<String>>(self, user_type: u8, fee_type: A, fee_code: B) -> (options:
        SubmitOptions)
        ensures
            call_ensures(<A as Into<String>>::into, (fee_type,), options.fee_type),
            call_ensures(<B as Into<String>>::into, (fee_code,), options.fee_code),
            options == (SubmitOptions {
                fee_user_type: user_type,
                fee_type: options.fee_type,
                fee_code: options.fee_code,
                ..self
            }),
    {
        let mut options: SubmitOptions = self;
        options.fee_user_type = user_type;
        options.fee_type = fee_type.into();
        options.fee_code = fee_code.into();
        options
    }

    /// The message that carries one segment.
    fn submit(&self, segment: &SmsSegment) -> (submit: Submit)
        ensures
            submit@ == self.submit_for(segment@),
    {
        let mut content: Vec<u8> = Vec::new();
        content.extend_from_slice(segment.content.as_slice());
        assert(content@ =~= segment.content@);
        let ids: Vec<String> = self.dest_terminal_ids.clone();
        assert(texts(ids@) =~= texts(self.dest_terminal_ids@));
        let submit: Submit = Submit {
            msg_id: [0u8; 8],
            pk_total: segment.pk_total,
            pk_number: segment.pk_number,
            registered_delivery: self.registered_delivery,
            msg_level: self.msg_level,
            service_id: self.service_id.clone(),
            fee_user_type: self.fee_user_type,
            fee_terminal_id: self.fee_terminal_id.clone(),
            tp_pid: self.tp_pid,
            tp_udhi: segment.tp_udhi,
            msg_fmt: segment.msg_fmt,
            msg_src: self.msg_src.clone(),
            fee_type: self.fee_type.clone(),
            fee_code: self.fee_code.clone(),
            valid_time: self.valid_time.clone(),
            at_time: self.at_time.clone(),
            src_id: self.src_id.clone(),
            dest_terminal_ids: ids,
            msg_content: content,
        };
        assert(submit@ =~= self.submit_for(segment@));
        submit
    }

    /// One message for each segment of a text whose counts fit their one-byte fields.
    pub fn build_submits(&self, content: &str, references: &mut UdhRefCounter) -> (submits: Vec<
        Submit,
    >)
        requires
            self.fault(content@) is None,
        ensures
            submit_views(submits@) == self.submits_for(content@, old(references).reference()),
            counted(content@, *old(references), *final(references)),
    {
        match self.try_build_submits(content, references) {
            Ok(submits) => submits,
            Err(_) => Vec::new(),
        }
    }

    /// One message for each segment of a text, or the reason why there cannot be: more numbers,
    /// or more segments, than a one-byte field can count.
    pub fn try_build_submits(&self, content: &str, references: &mut UdhRefCounter) -> (result:
        Result<Vec<Submit>>)
        ensures
            match self.fault(content@) {
                None => {
                    &&& result matches Ok(submits) && submit_views(submits@) == self.submits_for(
                        content@,
                        old(references).reference(),
                    )
                    &&& counted(content@, *old(references), *final(references))
                },
                Some(text) => {
                    &&& result matches Err(e) && e.is_config(text)
                    &&& *final(references) == *old(references)
                },
            },
    {
        if self.dest_terminal_ids.len() > 255 {
            return Err(Error::Config("SUBMIT destination 数量超过 255".to_string()));
        }
        let split: Vec<SmsSegment> = try_split_content(content, references)?;
        let mut submits: Vec<Submit> = Vec::new();
        let count: usize = split.len();
        let mut i: usize = 0;
        while i < count
            invariant
                i <= count,
                count == split@.len(),
                submits@.len() == i,
                forall|j: int|
                    0 <= j < i ==> (#[trigger] submits@[j])@ == self.submit_for(split@[j]@),
            decreases count - i,
        {
            submits.push(self.submit(&split[i]));
            i = i + 1;
        }
        proof {
            let reference = old(references).reference();
            let built = self.submits_for(content@, reference);
            assert forall|j: int| 0 <= j < count implies submit_views(submits@)[j] == built[j] by {
                assert(segment_views(split@)[j] == split@[j]@);
            }
            assert(submit_views(submits@) =~= built);
        }
        Ok(submits)
    }

    /// The one message of a text that needs no more, if it can be built.
    pub fn build_short_submit(&self, content: &str, references: &mut UdhRefCounter) -> (submit:
        Option<Submit>)
        ensures
            if self.fault(content@) is None && !is_multipart(content@) {
                submit matches Some(s) && s@ == self.submits_for(content@, 0)[0]
            } else {
                submit is None
            },
            if self.fault(content@) is None {
                counted(content@, *old(references), *final(references))
            } else {
                *final(references) == *old(references)
            },
    {
        let mut submits: Vec<Submit> = match self.try_build_submits(content, references) {
            Ok(submits) => submits,
            Err(_) => {
                return None;
            },
        };
        let ghost built = self.submits_for(content@, old(references).reference());
        assert(forall|i: int| 0 <= i < submits@.len() ==> (#[trigger] submits@[i])@ == built[i]) by {
            assert forall|i: int| 0 <= i < submits@.len() implies (#[trigger] submits@[i])@
                == built[i] by {
                assert(submit_views(submits@)[i] == submits@[i]@);
            }
        }
        assert(submits@.len() == built.len());
        if submits.len() == 1 && submits[0].tp_udhi == 0 {
            Some(submits.remove(0))
        } else {
            None
        }
    }
}

/// The text that each of some messages carries.
pub open spec fn submit_texts(submits: Seq<SubmitView>) -> Seq<Seq<char>> {
    submits.map_values(|s: SubmitView| content_text(s.msg_fmt, s.tp_udhi, s.msg_content))
}

/// Every message that is built can be encoded, none of their contents is longer than a single
/// message may be, and the texts that they carry, one behind the other, are the text that they
/// were built from.
pub proof fn built_submits_encode(options: SubmitOptions, text: Seq<char>, reference: u8)
    requires
        options.fault(text) is None,
    ensures
        forall|i: int|
            0 <= i < options.submits_for(text, reference).len() ==> {
                let submit = #[trigger] options.submits_for(text, reference)[i];
                submit.wf() && submit.fault() is None && submit.msg_content.len()
                    <= SINGLE_MAX_BYTES
            },
        joined(submit_texts(options.submits_for(text, reference))) == text,
{
    segments_carry_the_text(text, reference);
    assert(submit_texts(options.submits_for(text, reference)) =~= segment_texts(
        segments(text, reference),
    ));
}

/// Each message that is built carries the fields of the options under their own names, a message
/// id of eight NULs, and the fields of its own segment; there is one for each segment, in order.
pub proof fn submits_share_the_options(options: SubmitOptions, text: Seq<char>, reference: u8)
    ensures
        options.submits_for(text, reference).len() == segments(text, reference).len(),
        forall|i: int|
            0 <= i < segments(text, reference).len() ==> {
                let s = #[trigger] options.submits_for(text, reference)[i];
                let part = segments(text, reference)[i];
                &&& s.msg_id == seq![0u8, 0, 0, 0, 0, 0, 0, 0]
                &&& s.pk_total == part.pk_total
                &&& s.pk_number == part.pk_number
                &&& s.tp_udhi == part.tp_udhi
                &&& s.msg_fmt == part.msg_fmt
                &&& s.msg_content == part.content
                &&& s.registered_delivery == options.registered_delivery
                &&& s.msg_level == options.msg_level
                &&& s.service_id == options.service_id@
                &&& s.fee_user_type == options.fee_user_type
                &&& s.fee_terminal_id == options.fee_terminal_id@
                &&& s.tp_pid == options.tp_pid
                &&& s.msg_src == options.msg_src@
                &&& s.fee_type == options.fee_type@
                &&& s.fee_code == options.fee_code@
                &&& s.valid_time == options.valid_time@
                &&& s.at_time == options.at_time@
                &&& s.src_id == options.src_id@
                &&& s.dest_terminal_ids.len() == options.dest_terminal_ids@.len()
                &&& forall|k: int|
                    0 <= k < options.dest_terminal_ids@.len() ==> #[trigger] s.dest_terminal_ids[k]
                        == options.dest_terminal_ids@[k]@
            },
{
    assert(Seq::new(8, |i: int| 0u8) =~= seq![0u8, 0, 0, 0, 0, 0, 0, 0]);
}

/// A text is refused where it goes to more than 255 numbers, or needs more than 255 segments.
pub proof fn what_is_refused(options: SubmitOptions, text: Seq<char>)
    ensures
        options.fault(text) is None <==> options.dest_terminal_ids@.len() <= 255 && segment_count(
            text,
        ) <= 255,
{
}

/// Too many numbers are named before too many segments.
pub proof fn first_build_fault_is_named(options: SubmitOptions, text: Seq<char>)
    ensures
        options.dest_terminal_ids@.len() > 255 ==> options.fault(text) == Some(
            "SUBMIT destination 数量超过 255"@,
        ),
        options.dest_terminal_ids@.len() <= 255 && segment_count(text) > 255 ==> options.fault(text)
            == Some("长短信 segment 数量超过 255"@),
{
}

} // verus!
