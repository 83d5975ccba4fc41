//! Fields with a type: the tag and the name that the protocol gives a field,
//! and the text of its value.

use crate::text::bytes_eq;
use crate::text::lemma_encode_utf8_injective;
use vstd::prelude::*;
use vstd::string::StringSliceAdditionalSpecFns;
use vstd::utf8::*;

verus! {

/// The character that ends every field.
pub const SOH: char = '\x01';

/// A field of a message: its tag, the name of the tag, and its value as it is
/// written.
pub trait FixField {
    /// The tag.
    spec fn tag_text(&self) -> Seq<char>;

    /// The name of the tag.
    spec fn name_text(&self) -> Seq<char>;

    /// The value as it is written.
    spec fn value_text(&self) -> Seq<char>;

    fn tag_id(&self) -> (tag: &'static str)
        ensures
            tag@ == self.tag_text(),
    ;

    fn field_name(&self) -> (name: &'static str)
        ensures
            name@ == self.name_text(),
    ;

    fn value(&self) -> (value: String)
        ensures
            value@ == self.value_text(),
    ;
}

/// The identifier of a firm.
#[derive(Debug, Clone)]
pub struct CompID(pub String);

impl CompID {
    pub fn new(id: String) -> (comp: CompID)
        ensures
            comp.0@ == id@,
    {
        CompID(id)
    }
}

impl FixField for CompID {
    open spec fn tag_text(&self) -> Seq<char> {
        "49"@
    }

    open spec fn name_text(&self) -> Seq<char> {
        "SenderCompID"@
    }

    open spec fn value_text(&self) -> Seq<char> {
        self.0@
    }

    fn tag_id(&self) -> (tag: &'static str) {
        "49"
    }

    fn field_name(&self) -> (name: &'static str) {
        "SenderCompID"
    }

    fn value(&self) -> (value: String) {
        self.0.clone()
    }
}

/// Whether a message may have been sent before.
#[derive(Debug, Clone, Copy)]
pub enum PossDupFlag {
    Yes,
    No,
}

impl PossDupFlag {
    /// The flag that `value` stands for: `Y` or `N`.
    pub open spec fn parsed(value: Seq<char>) -> Result<PossDupFlag, Seq<char>> {
        if value == "Y"@ {
            Ok(PossDupFlag::Yes)
        } else if value == "N"@ {
            Ok(PossDupFlag::No)
        } else {
            Err("Invalid PossDupFlag value"@)
        }
    }

    /// Reads the flag from its value.
    pub fn from_str(value: &str) -> (flag: Result<PossDupFlag, &'static str>)
        ensures
            match PossDupFlag::parsed(value@) {
                Ok(expected) => flag == Ok::<PossDupFlag, &'static str>(expected),
                Err(words) => flag matches Err(e) && e@ == words,
            },
    {
        let yes = bytes_eq(value.as_bytes(), "Y".as_bytes());
        let no = bytes_eq(value.as_bytes(), "N".as_bytes());
        proof {
            reveal_strlit("Y");
            reveal_strlit("N");
            if yes {
                lemma_encode_utf8_injective(value@, "Y"@);
            }
            if no {
                lemma_encode_utf8_injective(value@, "N"@);
            }
        }
        if yes {
            Ok(PossDupFlag::Yes)
        } else if no {
            Ok(PossDupFlag::No)
        } else {
            Err("Invalid PossDupFlag value")
        }
    }
}

impl FixField for PossDupFlag {
    open spec fn tag_text(&self) -> Seq<char> {
        "43"@
    }

    open spec fn name_text(&self) -> Seq<char> {
        "PossDupFlag"@
    }

    open spec fn value_text(&self) -> Seq<char> {
        match self {
            PossDupFlag::Yes => "Y"@,
            PossDupFlag::No => "N"@,
        }
    }

    fn tag_id(&self) -> (tag: &'static str) {
        "43"
    }

    fn field_name(&self) -> (name: &'static str) {
        "PossDupFlag"
    }

    fn value(&self) -> (value: String) {
        let text = match self {
            PossDupFlag::Yes => "Y",
            PossDupFlag::No => "N",
        };
        text.to_owned()
    }
}

/// The version of the protocol.
#[derive(Debug, Clone, Copy)]
pub enum BeginString {
    Fix4_2,
    Fix4_4,
}

impl FixField for BeginString {
    open spec fn tag_text(&self) -> Seq<char> {
        "8"@
    }

    open spec fn name_text(&self) -> Seq<char> {
        "BeginString"@
    }

    open spec fn value_text(&self) -> Seq<char> {
        match self {
            BeginString::Fix4_2 => "FIX.4.2"@,
            BeginString::Fix4_4 => "FIX.4.4"@,
        }
    }

    fn tag_id(&self) -> (tag: &'static str) {
        "8"
    }

    fn field_name(&self) -> (name: &'static str) {
        "BeginString"
    }

    fn value(&self) -> (value: String) {
        let text = match self {
            BeginString::Fix4_2 => "FIX.4.2",
            BeginString::Fix4_4 => "FIX.4.4",
        };
        text.to_owned()
    }
}

/// The type of a message.
#[derive(Debug, Clone, Copy)]
pub enum MsgType {
    Heartbeat,
    TestRequest,
    ResendRequest,
    Reject,
    SequenceReset,
    Logout,
    ExecutionReport,
    OrderCancelReject,
    Logon,
    News,
    SecurityDefinitionRequest,
    OrderSingle,
    SecurityDefinition,
    SecurityStatusRequest,
    SecurityStatus,
    OrderCancelRequest,
    OrderCancelReplaceRequest,
    OrderStatusRequest,
    DontKnowTrade,
    QuoteRequest,
    MarketDataRequest,
    MarketDataSnapshotFullRefresh,
    MarketDataIncrementalRefresh,
    MarketDataRequestReject,
    TradeCaptureReportRequest,
    TradeCaptureReport,
    TradeCaptureReportRequestAck,
}

impl FixField for MsgType {
    open spec fn tag_text(&self) -> Seq<char> {
        "35"@
    }

    open spec fn name_text(&self) -> Seq<char> {
        "MsgType"@
    }

    open spec fn value_text(&self) -> Seq<char> {
        match self {
            MsgType::Heartbeat => "0"@,
            MsgType::TestRequest => "1"@,
            MsgType::ResendRequest => "2"@,
            MsgType::Reject => "3"@,
            MsgType::SequenceReset => "4"@,
            MsgType::Logout => "5"@,
            MsgType::ExecutionReport => "8"@,
            MsgType::OrderCancelReject => "9"@,
            MsgType::Logon => "A"@,
            MsgType::News => "B"@,
            MsgType::SecurityDefinitionRequest => "c"@,
            MsgType::OrderSingle => "D"@,
            MsgType::SecurityDefinition => "d"@,
            MsgType::SecurityStatusRequest => "e"@,
            MsgType::SecurityStatus => "f"@,
            MsgType::OrderCancelRequest => "F"@,
            MsgType::OrderCancelReplaceRequest => "G"@,
            MsgType::OrderStatusRequest => "H"@,
            MsgType::DontKnowTrade => "Q"@,
            MsgType::QuoteRequest => "R"@,
            MsgType::MarketDataRequest => "V"@,
            MsgType::MarketDataSnapshotFullRefresh => "W"@,
            MsgType::MarketDataIncrementalRefresh => "X"@,
            MsgType::MarketDataRequestReject => "Y"@,
            MsgType::TradeCaptureReportRequest => "AD"@,
            MsgType::TradeCaptureReport => "AE"@,
            MsgType::TradeCaptureReportRequestAck => "AQ"@,
        }
    }

    fn tag_id(&self) -> (tag: &'static str) {
        "35"
    }

    fn field_name(&self) -> (name: &'static str) {
        "MsgType"
    }

    fn value(&self) -> (value: String) {
        let text = match self {
            MsgType::Heartbeat => "0",
            MsgType::TestRequest => "1",
            MsgType::ResendRequest => "2",
            MsgType::Reject => "3",
            MsgType::SequenceReset => "4",
            MsgType::Logout => "5",
            MsgType::ExecutionReport => "8",
            MsgType::OrderCancelReject => "9",
            MsgType::Logon => "A",
            MsgType::News => "B",
            MsgType::SecurityDefinitionRequest => "c",
            MsgType::OrderSingle => "D",
            MsgType::SecurityDefinition => "d",
            MsgType::SecurityStatusRequest => "e",
            MsgType::SecurityStatus => "f",
            MsgType::OrderCancelRequest => "F",
            MsgType::OrderCancelReplaceRequest => "G",
            MsgType::OrderStatusRequest => "H",
            MsgType::DontKnowTrade => "Q",
            MsgType::QuoteRequest => "R",
            MsgType::MarketDataRequest => "V",
            MsgType::MarketDataSnapshotFullRefresh => "W",
            MsgType::MarketDataIncrementalRefresh => "X",
            MsgType::MarketDataRequestReject => "Y",
            MsgType::TradeCaptureReportRequest => "AD",
            MsgType::TradeCaptureReport => "AE",
            MsgType::TradeCaptureReportRequestAck => "AQ",
        };
        text.to_owned()
    }
}

/// A field with the type of its tag.
#[derive(Debug, Clone)]
pub enum FixTag {
    BeginString(BeginString),
    MsgType(MsgType),
    BodyLength(String),
    SenderCompID(CompID),
    TargetCompID(CompID),
    SenderSubID(String),
    TargetSubID(String),
    OnBehalfOfSubID(String),
    MsgSeqNum(String),
    SenderLocationID(String),
    PossDupFlag(PossDupFlag),
    OrigSendingTime(String),
    SendingTime(String),
    Checksum(String),
    Symbol(String),
}

impl FixField for FixTag {
    open spec fn tag_text(&self) -> Seq<char> {
        match self {
            FixTag::BeginString(f) => f.tag_text(),
            FixTag::MsgType(f) => f.tag_text(),
            FixTag::BodyLength(_) => "9"@,
            FixTag::SenderCompID(f) => f.tag_text(),
            FixTag::TargetCompID(_) => "56"@,
            FixTag::SenderSubID(_) => "50"@,
            FixTag::TargetSubID(_) => "57"@,
            FixTag::OnBehalfOfSubID(_) => "116"@,
            FixTag::MsgSeqNum(_) => "34"@,
            FixTag::SenderLocationID(_) => "142"@,
            FixTag::PossDupFlag(f) => f.tag_text(),
            FixTag::OrigSendingTime(_) => "122"@,
            FixTag::SendingTime(_) => "52"@,
            FixTag::Checksum(_) => "10"@,
            FixTag::Symbol(_) => "55"@,
        }
    }

    open spec fn name_text(&self) -> Seq<char> {
        match self {
            FixTag::BeginString(f) => f.name_text(),
            FixTag::MsgType(f) => f.name_text(),
            FixTag::BodyLength(_) => "BodyLength"@,
            FixTag::SenderCompID(f) => f.name_text(),
            FixTag::TargetCompID(_) => "TargetCompID"@,
            FixTag::SenderSubID(_) => "SenderSubID"@,
            FixTag::TargetSubID(_) => "TargetSubID"@,
            FixTag::OnBehalfOfSubID(_) => "OnBehalfOfSubID"@,
            FixTag::MsgSeqNum(_) => "MsgSeqNum"@,
            FixTag::SenderLocationID(_) => "SenderLocationID"@,
            FixTag::PossDupFlag(f) => f.name_text(),
            FixTag::OrigSendingTime(_) => "OrigSendingTime"@,
            FixTag::SendingTime(_) => "SendingTime"@,
            FixTag::Checksum(_) => "Checksum"@,
            FixTag::Symbol(_) => "Symbol"@,
        }
    }

    open spec fn value_text(&self) -> Seq<char> {
        match self {
            FixTag::BeginString(f) => f.value_text(),
            FixTag::MsgType(f) => f.value_text(),
            FixTag::BodyLength(text) => text@,
            FixTag::SenderCompID(f) => f.value_text(),
            FixTag::TargetCompID(f) => f.value_text(),
            FixTag::SenderSubID(text) => text@,
            FixTag::TargetSubID(text) => text@,
            FixTag::OnBehalfOfSubID(text) => text@,
            FixTag::MsgSeqNum(text) => text@,
            FixTag::SenderLocationID(text) => text@,
            FixTag::PossDupFlag(f) => f.value_text(),
            FixTag::OrigSendingTime(text) => text@,
            FixTag::SendingTime(text) => text@,
            FixTag::Checksum(text) => text@,
            FixTag::Symbol(text) => text@,
        }
    }

    fn tag_id(&self) -> (tag: &'static str) {
        match self {
            FixTag::BeginString(f) => f.tag_id(),
            FixTag::MsgType(f) => f.tag_id(),
            FixTag::BodyLength(_) => "9",
            FixTag::SenderCompID(f) => f.tag_id(),
            FixTag::TargetCompID(_) => "56",
            FixTag::SenderSubID(_) => "50",
            FixTag::TargetSubID(_) => "57",
            FixTag::OnBehalfOfSubID(_) => "116",
            FixTag::MsgSeqNum(_) => "34",
            FixTag::SenderLocationID(_) => "142",
            FixTag::PossDupFlag(f) => f.tag_id(),
            FixTag::OrigSendingTime(_) => "122",
            FixTag::SendingTime(_) => "52",
            FixTag::Checksum(_) => "10",
            FixTag::Symbol(_) => "55",
        }
    }

    fn field_name(&self) -> (name: &'static str) {
        match self {
            FixTag::BeginString(f) => f.field_name(),
            FixTag::MsgType(f) => f.field_name(),
            FixTag::BodyLength(_) => "BodyLength",
            FixTag::SenderCompID(f) => f.field_name(),
            FixTag::TargetCompID(_) => "TargetCompID",
            FixTag::SenderSubID(_) => "SenderSubID",
            FixTag::TargetSubID(_) => "TargetSubID",
            FixTag::OnBehalfOfSubID(_) => "OnBehalfOfSubID",
            FixTag::MsgSeqNum(_) => "MsgSeqNum",
            FixTag::SenderLocationID(_) => "SenderLocationID",
            FixTag::PossDupFlag(f) => f.field_name(),
            FixTag::OrigSendingTime(_) => "OrigSendingTime",
            FixTag::SendingTime(_) => "SendingTime",
            FixTag::Checksum(_) => "Checksum",
            FixTag::Symbol(_) => "Symbol",
        }
    }

    fn value(&self) -> (value: String) {
        match self {
            FixTag::BeginString(f) => f.value(),
            FixTag::MsgType(f) => f.value(),
            FixTag::BodyLength(text) => text.clone(),
            FixTag::SenderCompID(f) => f.value(),
            FixTag::TargetCompID(f) => f.value(),
            FixTag::SenderSubID(text) => text.clone(),
            FixTag::TargetSubID(text) => text.clone(),
            FixTag::OnBehalfOfSubID(text) => text.clone(),
            FixTag::MsgSeqNum(text) => text.clone(),
            FixTag::SenderLocationID(text) => text.clone(),
            FixTag::PossDupFlag(f) => f.value(),
            FixTag::OrigSendingTime(text) => text.clone(),
            FixTag::SendingTime(text) => text.clone(),
            FixTag::Checksum(text) => text.clone(),
            FixTag::Symbol(text) => text.clone(),
        }
    }
}

} // verus!
