//! The decoder as a whole: from what the serial port gives to what is sent.

use vstd::prelude::*;
use crate::dispatcher::{
    batch_of, note_models, optional_batch, telegram_progress, untagged, P1Mon, P1MonState,
    TelegramOutput,
};
use crate::error::{ConfigError, StreamClosed};
use crate::framer::{framer_next, FrameStep, FrameStepModel, Framer, Refusal, SerialRead};
use crate::message::definition_models;
use crate::registry::{load_codes, ObisCodes};

verus! {

/// What one read of the serial port came to.
#[derive(Debug, PartialEq, Eq)]
pub enum SerialStep {
    /// Nothing to send: read on.
    Idle,
    /// A telegram ended and was dropped, for the reason given: read on.
    Refused(Refusal),
    /// A telegram was accepted: here is what it gave.
    Telegram(TelegramOutput),
}

impl P1Mon {
    /// The decoder for the table of codes that the text `codes` defines,
    /// which sends its values under `parameter_group`. Fails where the table
    /// is wrong, with the error of its first wrong record.
    pub fn new(codes: &str, parameter_group: &str) -> (r: Result<P1Mon, ConfigError>)
        requires
            codes@.len() <= u32::MAX,
        ensures
            match load_codes(codes@) {
                Ok(table) => r matches Ok(mon) && mon.obis_codes@ == table
                    && mon.parameter_group@ == parameter_group@,
                Err(e) => r matches Err(err) && err@ == e,
            },
    {
        match ObisCodes::parse(codes) {
            Ok(obis_codes) => Ok(
                P1Mon { parameter_group: parameter_group.to_owned(), obis_codes },
            ),
            Err(e) => Err(e),
        }
    }

    /// Takes what one read of the serial port gave.
    ///
    /// The framer moves on as [`framer_next`] says. Where that completes a
    /// telegram that passes the checksum, the telegram is processed as
    /// [`P1Mon::process_p1telegram`] says and its output returned. Where the
    /// stream is closed the session fails. Where a telegram is dropped at
    /// its end line the reason is returned. Only an accepted telegram
    /// changes the table or the counter.
    pub fn process_serial_data(
        &mut self,
        p1mon_state: &mut P1MonState,
        framer: &mut Framer,
        read: SerialRead,
    ) -> (r: Result<SerialStep, StreamClosed>)
        requires
            old(p1mon_state).seq_count < u32::MAX,
        ensures
            final(framer)@ == framer_next(old(framer)@, read@).0,
            final(self).parameter_group@ == old(self).parameter_group@,
            !(framer_next(old(framer)@, read@).1 is Telegram) ==> {
                &&& final(self).obis_codes@ == old(self).obis_codes@
                &&& final(p1mon_state).seq_count == old(p1mon_state).seq_count
            },
            match framer_next(old(framer)@, read@).1 {
                FrameStepModel::Closed => r is Err,
                FrameStepModel::Idle => r matches Ok(SerialStep::Idle),
                FrameStepModel::Refused(reason) => r matches Ok(SerialStep::Refused(why)) && why
                    == reason,
                FrameStepModel::Telegram(body) => {
                    &&& r matches Ok(SerialStep::Telegram(out))
                    &&& final(self).obis_codes@ == telegram_progress(
                        old(self).obis_codes@,
                        body,
                    ).codes
                    &&& definition_models(out.definitions@) == untagged(
                        telegram_progress(old(self).obis_codes@, body).definitions,
                    )
                    &&& optional_batch(out.data) == batch_of(
                        telegram_progress(old(self).obis_codes@, body),
                        old(self).parameter_group@,
                        old(p1mon_state).seq_count,
                    )
                    &&& note_models(out.notes@) == telegram_progress(
                        old(self).obis_codes@,
                        body,
                    ).notes
                    &&& final(p1mon_state).seq_count == old(p1mon_state).seq_count + (
                    if out.data is Some {
                        1int
                    } else {
                        0int
                    })
                },
            },
    {
        match framer.push(read) {
            FrameStep::Idle => Ok(SerialStep::Idle),
            FrameStep::Refused(reason) => Ok(SerialStep::Refused(reason)),
            FrameStep::Closed => Err(StreamClosed),
            FrameStep::Telegram(body) => Ok(
                SerialStep::Telegram(self.process_p1telegram(p1mon_state, body.as_str())),
            ),
        }
    }
}

} // verus!
