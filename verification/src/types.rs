//! The data model: inbound payloads, configuration, notification targets and
//! the normalized incident record, each with a mathematical view.

use vstd::prelude::*;

verus! {

/// A notification target: matched display text, target code, sub-channel.
#[derive(Clone, Debug)]
pub struct Ric {
    pub text: String,
    pub ric: String,
    pub subric: String,
}

/// Mathematical view of a [`Ric`].
#[verifier::ext_equal]
pub ghost struct RicV {
    pub text: Seq<char>,
    pub ric: Seq<char>,
    pub subric: Seq<char>,
}

impl View for Ric {
    type V = RicV;

    open spec fn view(&self) -> RicV {
        RicV { text: self.text@, ric: self.ric@, subric: self.subric@ }
    }
}

impl Ric {
    /// Two targets are the same when all three fields agree.
    pub fn same_as(&self, other: &Ric) -> (r: bool)
        ensures
            r == (self@ == other@),
    {
        let r = self.text == other.text && self.ric == other.ric && self.subric == other.subric;
        proof {
            if self.text@ == other.text@ && self.ric@ == other.ric@ && self.subric@
                == other.subric@ {
                assert(self@ =~= other@);
            }
        }
        r
    }
}

/// A mail-monitored site; carried in the configuration surface.
#[derive(Clone, Debug)]
pub struct Standort {
    pub standort: String,
    pub imap_server: String,
    pub imap_port: u16,
    pub imap_user: String,
    pub imap_password: String,
    pub additional_rics: Option<Vec<Ric>>,
}

/// The configuration surface: API key, field-extraction patterns, the rule
/// table, an optional post-submission trigger command, and listener settings.
#[derive(Clone, Debug)]
pub struct Configuration {
    pub fireplan_api_key: String,
    pub regex_einsatzstichwort: String,
    pub regex_strasse: String,
    pub regex_ort: String,
    pub regex_hausnummer: String,
    pub regex_ortsteil: String,
    pub regex_einsatznrleitstelle: String,
    pub regex_koordinaten: String,
    pub regex_zusatzinfo: String,
    pub regex_objektname: String,
    pub simple_trigger: Option<String>,
    pub rics: Vec<Ric>,
    pub http_port: u16,
    pub http_host: String,
}

/// The parts of a [`Configuration`] the extractor reads.
#[verifier::ext_equal]
pub ghost struct ExtractConfigV {
    pub regex_ort: Seq<char>,
    pub regex_ortsteil: Seq<char>,
    pub regex_objektname: Seq<char>,
    pub rics: Seq<RicV>,
}

impl Configuration {
    /// The extractor-relevant view of this configuration.
    pub open spec fn extract_view(&self) -> ExtractConfigV {
        ExtractConfigV {
            regex_ort: self.regex_ort@,
            regex_ortsteil: self.regex_ortsteil@,
            regex_objektname: self.regex_objektname@,
            rics: self.rics@.map_values(|r: Ric| r@),
        }
    }
}

/// One raw inbound notification, as delivered by the webhook.
#[derive(Clone, Debug)]
pub struct SubmitPayload {
    pub id: i64,
    pub foreign_id: String,
    pub title: String,
    pub text: String,
    pub address: String,
    pub lat: String,
    pub lng: String,
    pub priority: i64,
    pub cluster: Vec<String>,
    pub group: Vec<String>,
    pub vehicle: Vec<String>,
    pub ts_create: i64,
    pub ts_update: i64,
}

/// The parts of a [`SubmitPayload`] the extractor reads.
#[verifier::ext_equal]
pub ghost struct SubmitPayloadV {
    pub foreign_id: Seq<char>,
    pub title: Seq<char>,
    pub text: Seq<char>,
    pub address: Seq<char>,
    pub lat: Seq<char>,
    pub lng: Seq<char>,
}

impl View for SubmitPayload {
    type V = SubmitPayloadV;

    open spec fn view(&self) -> SubmitPayloadV {
        SubmitPayloadV {
            foreign_id: self.foreign_id@,
            title: self.title@,
            text: self.text@,
            address: self.address@,
            lat: self.lat@,
            lng: self.lng@,
        }
    }
}

/// The normalized incident record the extractor produces.
#[derive(Clone, Debug)]
pub struct ParsedData {
    pub rics: Vec<Ric>,
    pub einsatznrlst: String,
    pub strasse: String,
    pub hausnummer: String,
    pub ort: String,
    pub ortsteil: String,
    pub objektname: String,
    pub koordinaten: String,
    pub einsatzstichwort: String,
    pub zusatzinfo: String,
}

/// Mathematical view of a [`ParsedData`].
#[verifier::ext_equal]
pub ghost struct ParsedDataV {
    pub rics: Seq<RicV>,
    pub einsatznrlst: Seq<char>,
    pub strasse: Seq<char>,
    pub hausnummer: Seq<char>,
    pub ort: Seq<char>,
    pub ortsteil: Seq<char>,
    pub objektname: Seq<char>,
    pub koordinaten: Seq<char>,
    pub einsatzstichwort: Seq<char>,
    pub zusatzinfo: Seq<char>,
}

impl View for ParsedData {
    type V = ParsedDataV;

    open spec fn view(&self) -> ParsedDataV {
        ParsedDataV {
            rics: self.rics@.map_values(|r: Ric| r@),
            einsatznrlst: self.einsatznrlst@,
            strasse: self.strasse@,
            hausnummer: self.hausnummer@,
            ort: self.ort@,
            ortsteil: self.ortsteil@,
            objektname: self.objektname@,
            koordinaten: self.koordinaten@,
            einsatzstichwort: self.einsatzstichwort@,
            zusatzinfo: self.zusatzinfo@,
        }
    }
}

/// One outbound alarm: the record's shared fields plus one target.
#[derive(Clone, Debug)]
pub struct FireplanAlarm {
    pub ric: String,
    pub sub_ric: String,
    pub einsatznrlst: String,
    pub strasse: String,
    pub hausnummer: String,
    pub ort: String,
    pub ortsteil: String,
    pub objektname: String,
    pub koordinaten: String,
    pub einsatzstichwort: String,
    pub zusatzinfo: String,
}

/// Mathematical view of a [`FireplanAlarm`].
#[verifier::ext_equal]
pub ghost struct FireplanAlarmV {
    pub ric: Seq<char>,
    pub sub_ric: Seq<char>,
    pub einsatznrlst: Seq<char>,
    pub strasse: Seq<char>,
    pub hausnummer: Seq<char>,
    pub ort: Seq<char>,
    pub ortsteil: Seq<char>,
    pub objektname: Seq<char>,
    pub koordinaten: Seq<char>,
    pub einsatzstichwort: Seq<char>,
    pub zusatzinfo: Seq<char>,
}

impl View for FireplanAlarm {
    type V = FireplanAlarmV;

    open spec fn view(&self) -> FireplanAlarmV {
        FireplanAlarmV {
            ric: self.ric@,
            sub_ric: self.sub_ric@,
            einsatznrlst: self.einsatznrlst@,
            strasse: self.strasse@,
            hausnummer: self.hausnummer@,
            ort: self.ort@,
            ortsteil: self.ortsteil@,
            objektname: self.objektname@,
            koordinaten: self.koordinaten@,
            einsatzstichwort: self.einsatzstichwort@,
            zusatzinfo: self.zusatzinfo@,
        }
    }
}

/// Shared state of the inbound listener: the static auth secret.
#[derive(Clone, Debug)]
pub struct AppState {
    pub auth_token: String,
}

} // verus!
