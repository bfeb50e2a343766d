//! The IMAP response grammar of RFC 3501, section 9, as far as this client
//! reads it, and the mathematical model of each of its values.
use vstd::prelude::*;

verus! {

// ---------------------------------------------------------------------------
// Executable values
// ---------------------------------------------------------------------------

/// `base64`
#[derive(Debug, PartialEq, Eq)]
pub struct Base64 {
    pub base64: String,
}

/// `continue-req`: the text after `+ `.
#[derive(Debug, PartialEq, Eq)]
pub enum ContinueReq {
    RespText(RespText),
    Base64(Base64),
}

/// `flag`; `Atom` stands for both `flag-keyword` and `flag-extension`.
#[derive(Debug, PartialEq, Eq)]
pub enum Flag {
    Answered,
    Flagged,
    Deleted,
    Seen,
    Draft,
    Atom(String),
}

/// `flag-fetch`
#[derive(Debug, PartialEq, Eq)]
pub enum FlagFetch {
    Recent,
    Flag(Flag),
}

/// `address`: four `nstring`s.
#[derive(Debug, PartialEq, Eq)]
pub struct Address {
    pub addr_name: Option<String>,
    pub addr_adl: Option<String>,
    pub addr_mailbox: Option<String>,
    pub addr_host: Option<String>,
}

/// `env-from`, `env-sender`, `env-reply-to`, `env-to`, `env-cc`, `env-bcc`:
/// a list of addresses, empty for `NIL`.
#[derive(Debug, PartialEq, Eq)]
pub struct EnvNAddress {
    pub address: Vec<Address>,
}

/// `envelope`
#[derive(Debug, PartialEq, Eq)]
pub struct Envelope {
    pub env_date: Option<String>,
    pub env_subject: Option<String>,
    pub env_from: EnvNAddress,
    pub env_sender: EnvNAddress,
    pub env_reply_to: EnvNAddress,
    pub env_to: EnvNAddress,
    pub env_cc: EnvNAddress,
    pub env_bcc: EnvNAddress,
    pub env_in_reply_to: Option<String>,
    pub env_message_id: Option<String>,
}

/// `message-data`
#[derive(Debug, PartialEq, Eq)]
pub struct MessageData {
    pub nz_number: u32,
    pub message_data_component: MessageDataComponent,
}

/// The part of `message-data` after the number.
#[derive(Debug, PartialEq, Eq)]
pub enum MessageDataComponent {
    Expunge,
    /// `msg-att`
    Fetch(Vec<MsgAttComponent>),
}

/// One attribute of `msg-att`.
#[derive(Debug, PartialEq, Eq)]
pub enum MsgAttComponent {
    MsgAttDynamic(Vec<FlagFetch>),
    MsgAttStatic(MsgAttStatic),
}

/// `msg-att-static`
#[derive(Debug, PartialEq, Eq)]
pub enum MsgAttStatic {
    Envelope(Envelope),
    RFC822(MsgAttStaticRFC822Component),
    RFC822Size(u32),
    NonStructuredBody(MsgAttStaticBodyNonStructuredComponent),
    StructuredBody(MsgAttStaticBodyStructuredComponent),
}

/// `"BODY" ["STRUCTURE"] SP body`
#[derive(Debug, PartialEq, Eq)]
pub struct MsgAttStaticBodyStructuredComponent {
    pub structure: bool,
}

/// `"BODY" section ["<" number ">"] SP nstring`
#[derive(Debug, PartialEq, Eq)]
pub struct MsgAttStaticBodyNonStructuredComponent {
    pub section: Option<SectionSpec>,
    pub number: Option<u32>,
    pub nstring: Option<String>,
}

/// `"RFC822" ["." ("HEADER" / "TEXT")]`
#[derive(Debug, Clone, Copy, PartialEq, Eq, Structural)]
pub enum MsgAttStaticRFC822Component {
    Header,
    Text,
}

/// `resp-cond-bye`
#[derive(Debug, PartialEq, Eq)]
pub struct RespCondBye {
    pub resp_text: RespText,
}

/// `resp-cond-state`
#[derive(Debug, PartialEq, Eq)]
pub enum RespCondState {
    OK(RespText),
    No(RespText),
    Bad(RespText),
}

/// `response`
#[derive(Debug, PartialEq, Eq)]
pub struct Response {
    pub response_components: Vec<ResponseComponent>,
    pub response_done: ResponseDone,
}

/// One of the `continue-req` / `response-data` lines before `response-done`.
#[derive(Debug, PartialEq, Eq)]
pub enum ResponseComponent {
    ContinueReq(ContinueReq),
    ResponseData(ResponseData),
}

/// `response-data`
#[derive(Debug, PartialEq, Eq)]
pub enum ResponseData {
    RespCondBye(RespCondBye),
    RespCondState(RespCondState),
    MessageData(MessageData),
}

/// `response-done`
#[derive(Debug, PartialEq, Eq)]
pub enum ResponseDone {
    ResponseTagged(ResponseTagged),
    ResponseFatal(ResponseFatal),
}

/// `response-fatal`
#[derive(Debug, PartialEq, Eq)]
pub struct ResponseFatal {
    pub resp_cond_bye: RespCondBye,
}

/// `response-tagged`
#[derive(Debug, PartialEq, Eq)]
pub struct ResponseTagged {
    pub tag: Tag,
    pub resp_cond_state: RespCondState,
}

/// `resp-text`
#[derive(Debug, PartialEq, Eq)]
pub struct RespText {
    pub resp_text_code: Option<RespTextCode>,
    pub text: Text,
}

/// `resp-text-code` (only some of its alternatives).
#[derive(Debug, Clone, Copy, PartialEq, Eq, Structural)]
pub enum RespTextCode {
    Alert,
    Parse,
    ReadOnly,
    ReadWrite,
    TryCreate,
}

/// `section-spec`
#[derive(Debug, PartialEq, Eq)]
pub enum SectionSpec {
    SectionMsgtext(SectionMsgtext),
    SectionSpecComponent(SectionSpecComponent),
}

/// `section-part ["." section-text]`
#[derive(Debug, PartialEq, Eq)]
pub struct SectionSpecComponent {
    pub section_part: SectionPart,
    pub section_text: Option<SectionText>,
}

/// `section-text`
#[derive(Debug, PartialEq, Eq)]
pub enum SectionText {
    MIME,
    SectionMsgtext(SectionMsgtext),
}

/// `section-msgtext`; the flag of `HeaderFields` is the `.NOT` marker.
#[derive(Debug, PartialEq, Eq)]
pub enum SectionMsgtext {
    Header,
    HeaderFields((bool, HeaderList)),
    Text,
}

/// `section-part`
#[derive(Debug, PartialEq, Eq)]
pub struct SectionPart {
    pub numbers: Vec<u32>,
}

/// `header-list`
#[derive(Debug, PartialEq, Eq)]
pub struct HeaderList {
    pub header_fld_names: Vec<AString>,
}

/// `astring`
#[derive(Debug, PartialEq, Eq)]
pub enum AString {
    String(String),
    Achars(String),
}

/// `tag`
#[derive(Debug, PartialEq, Eq)]
pub struct Tag {
    pub chars: String,
}

/// `text`
#[derive(Debug, PartialEq, Eq)]
pub struct Text {
    pub text: String,
}

// ---------------------------------------------------------------------------
// Models
// ---------------------------------------------------------------------------

pub enum SpecContinueReq {
    RespText(SpecRespText),
    Base64(Seq<char>),
}

pub enum SpecFlag {
    Answered,
    Flagged,
    Deleted,
    Seen,
    Draft,
    Atom(Seq<char>),
}

pub enum SpecFlagFetch {
    Recent,
    Flag(SpecFlag),
}

pub struct SpecAddress {
    pub addr_name: Option<Seq<char>>,
    pub addr_adl: Option<Seq<char>>,
    pub addr_mailbox: Option<Seq<char>>,
    pub addr_host: Option<Seq<char>>,
}

pub struct SpecEnvelope {
    pub env_date: Option<Seq<char>>,
    pub env_subject: Option<Seq<char>>,
    pub env_from: Seq<SpecAddress>,
    pub env_sender: Seq<SpecAddress>,
    pub env_reply_to: Seq<SpecAddress>,
    pub env_to: Seq<SpecAddress>,
    pub env_cc: Seq<SpecAddress>,
    pub env_bcc: Seq<SpecAddress>,
    pub env_in_reply_to: Option<Seq<char>>,
    pub env_message_id: Option<Seq<char>>,
}

pub struct SpecMessageData {
    pub nz_number: u32,
    pub message_data_component: SpecMessageDataComponent,
}

pub enum SpecMessageDataComponent {
    Expunge,
    Fetch(Seq<SpecMsgAttComponent>),
}

pub enum SpecMsgAttComponent {
    MsgAttDynamic(Seq<SpecFlagFetch>),
    MsgAttStatic(SpecMsgAttStatic),
}

pub enum SpecMsgAttStatic {
    Envelope(SpecEnvelope),
    RFC822(MsgAttStaticRFC822Component),
    RFC822Size(u32),
    NonStructuredBody(SpecBodyNonStructured),
    StructuredBody(bool),
}

pub struct SpecBodyNonStructured {
    pub section: Option<SpecSectionSpec>,
    pub number: Option<u32>,
    pub nstring: Option<Seq<char>>,
}

pub enum SpecRespCondState {
    OK(SpecRespText),
    No(SpecRespText),
    Bad(SpecRespText),
}

pub struct SpecResponse {
    pub response_components: Seq<SpecResponseComponent>,
    pub response_done: SpecResponseDone,
}

pub enum SpecResponseComponent {
    ContinueReq(SpecContinueReq),
    ResponseData(SpecResponseData),
}

pub enum SpecResponseData {
    RespCondBye(SpecRespText),
    RespCondState(SpecRespCondState),
    MessageData(SpecMessageData),
}

pub enum SpecResponseDone {
    ResponseTagged(SpecResponseTagged),
    /// The text of the `BYE`.
    ResponseFatal(SpecRespText),
}

pub struct SpecResponseTagged {
    pub tag: Seq<char>,
    pub resp_cond_state: SpecRespCondState,
}

pub struct SpecRespText {
    pub resp_text_code: Option<RespTextCode>,
    pub text: Seq<char>,
}

pub enum SpecSectionSpec {
    SectionMsgtext(SpecSectionMsgtext),
    SectionSpecComponent(SpecSectionSpecComponent),
}

pub struct SpecSectionSpecComponent {
    pub section_part: Seq<u32>,
    pub section_text: Option<SpecSectionText>,
}

pub enum SpecSectionText {
    MIME,
    SectionMsgtext(SpecSectionMsgtext),
}

pub enum SpecSectionMsgtext {
    Header,
    HeaderFields(bool, Seq<SpecAString>),
    Text,
}

pub enum SpecAString {
    String(Seq<char>),
    Achars(Seq<char>),
}

// ---------------------------------------------------------------------------
// Views
// ---------------------------------------------------------------------------

impl View for Base64 {
    type V = Seq<char>;

    open spec fn view(&self) -> Seq<char> {
        self.base64@
    }
}

impl DeepView for Base64 {
    type V = Seq<char>;

    open spec fn deep_view(&self) -> Seq<char> {
        self.view()
    }
}

impl View for ContinueReq {
    type V = SpecContinueReq;

    open spec fn view(&self) -> SpecContinueReq {
        match self {
            ContinueReq::RespText(t) => SpecContinueReq::RespText(t@),
            ContinueReq::Base64(b) => SpecContinueReq::Base64(b@),
        }
    }
}

impl DeepView for ContinueReq {
    type V = SpecContinueReq;

    open spec fn deep_view(&self) -> SpecContinueReq {
        self.view()
    }
}

impl View for Flag {
    type V = SpecFlag;

    open spec fn view(&self) -> SpecFlag {
        match self {
            Flag::Answered => SpecFlag::Answered,
            Flag::Flagged => SpecFlag::Flagged,
            Flag::Deleted => SpecFlag::Deleted,
            Flag::Seen => SpecFlag::Seen,
            Flag::Draft => SpecFlag::Draft,
            Flag::Atom(a) => SpecFlag::Atom(a@),
        }
    }
}

impl View for FlagFetch {
    type V = SpecFlagFetch;

    open spec fn view(&self) -> SpecFlagFetch {
        match self {
            FlagFetch::Recent => SpecFlagFetch::Recent,
            FlagFetch::Flag(f) => SpecFlagFetch::Flag(f@),
        }
    }
}

impl DeepView for FlagFetch {
    type V = SpecFlagFetch;

    open spec fn deep_view(&self) -> SpecFlagFetch {
        self.view()
    }
}

impl View for Address {
    type V = SpecAddress;

    open spec fn view(&self) -> SpecAddress {
        SpecAddress {
            addr_name: self.addr_name.deep_view(),
            addr_adl: self.addr_adl.deep_view(),
            addr_mailbox: self.addr_mailbox.deep_view(),
            addr_host: self.addr_host.deep_view(),
        }
    }
}

impl DeepView for Address {
    type V = SpecAddress;

    open spec fn deep_view(&self) -> SpecAddress {
        self.view()
    }
}

impl View for EnvNAddress {
    type V = Seq<SpecAddress>;

    open spec fn view(&self) -> Seq<SpecAddress> {
        self.address.deep_view()
    }
}

impl DeepView for EnvNAddress {
    type V = Seq<SpecAddress>;

    open spec fn deep_view(&self) -> Seq<SpecAddress> {
        self.view()
    }
}

impl View for Envelope {
    type V = SpecEnvelope;

    open spec fn view(&self) -> SpecEnvelope {
        SpecEnvelope {
            env_date: self.env_date.deep_view(),
            env_subject: self.env_subject.deep_view(),
            env_from: self.env_from@,
            env_sender: self.env_sender@,
            env_reply_to: self.env_reply_to@,
            env_to: self.env_to@,
            env_cc: self.env_cc@,
            env_bcc: self.env_bcc@,
            env_in_reply_to: self.env_in_reply_to.deep_view(),
            env_message_id: self.env_message_id.deep_view(),
        }
    }
}

impl DeepView for Envelope {
    type V = SpecEnvelope;

    open spec fn deep_view(&self) -> SpecEnvelope {
        self.view()
    }
}

impl View for MessageData {
    type V = SpecMessageData;

    open spec fn view(&self) -> SpecMessageData {
        SpecMessageData {
            nz_number: self.nz_number,
            message_data_component: self.message_data_component@,
        }
    }
}

impl DeepView for MessageData {
    type V = SpecMessageData;

    open spec fn deep_view(&self) -> SpecMessageData {
        self.view()
    }
}

impl View for MessageDataComponent {
    type V = SpecMessageDataComponent;

    open spec fn view(&self) -> SpecMessageDataComponent {
        match self {
            MessageDataComponent::Expunge => SpecMessageDataComponent::Expunge,
            MessageDataComponent::Fetch(atts) => SpecMessageDataComponent::Fetch(atts.deep_view()),
        }
    }
}

impl DeepView for MessageDataComponent {
    type V = SpecMessageDataComponent;

    open spec fn deep_view(&self) -> SpecMessageDataComponent {
        self.view()
    }
}

impl View for MsgAttComponent {
    type V = SpecMsgAttComponent;

    open spec fn view(&self) -> SpecMsgAttComponent {
        match self {
            MsgAttComponent::MsgAttDynamic(f) => SpecMsgAttComponent::MsgAttDynamic(f.deep_view()),
            MsgAttComponent::MsgAttStatic(s) => SpecMsgAttComponent::MsgAttStatic(s@),
        }
    }
}

impl DeepView for MsgAttComponent {
    type V = SpecMsgAttComponent;

    open spec fn deep_view(&self) -> SpecMsgAttComponent {
        self.view()
    }
}

impl View for MsgAttStatic {
    type V = SpecMsgAttStatic;

    open spec fn view(&self) -> SpecMsgAttStatic {
        match self {
            MsgAttStatic::Envelope(e) => SpecMsgAttStatic::Envelope(e@),
            MsgAttStatic::RFC822(c) => SpecMsgAttStatic::RFC822(*c),
            MsgAttStatic::RFC822Size(n) => SpecMsgAttStatic::RFC822Size(*n),
            MsgAttStatic::NonStructuredBody(b) => SpecMsgAttStatic::NonStructuredBody(b@),
            MsgAttStatic::StructuredBody(b) => SpecMsgAttStatic::StructuredBody(b.structure),
        }
    }
}

impl DeepView for MsgAttStatic {
    type V = SpecMsgAttStatic;

    open spec fn deep_view(&self) -> SpecMsgAttStatic {
        self.view()
    }
}

impl View for MsgAttStaticBodyNonStructuredComponent {
    type V = SpecBodyNonStructured;

    open spec fn view(&self) -> SpecBodyNonStructured {
        SpecBodyNonStructured {
            section: self.section.deep_view(),
            number: self.number,
            nstring: self.nstring.deep_view(),
        }
    }
}

impl DeepView for MsgAttStaticBodyNonStructuredComponent {
    type V = SpecBodyNonStructured;

    open spec fn deep_view(&self) -> SpecBodyNonStructured {
        self.view()
    }
}

impl View for RespCondState {
    type V = SpecRespCondState;

    open spec fn view(&self) -> SpecRespCondState {
        match self {
            RespCondState::OK(t) => SpecRespCondState::OK(t@),
            RespCondState::No(t) => SpecRespCondState::No(t@),
            RespCondState::Bad(t) => SpecRespCondState::Bad(t@),
        }
    }
}

impl DeepView for RespCondState {
    type V = SpecRespCondState;

    open spec fn deep_view(&self) -> SpecRespCondState {
        self.view()
    }
}

impl View for RespCondBye {
    type V = SpecRespText;

    open spec fn view(&self) -> SpecRespText {
        self.resp_text@
    }
}

impl DeepView for RespCondBye {
    type V = SpecRespText;

    open spec fn deep_view(&self) -> SpecRespText {
        self.view()
    }
}

impl View for Response {
    type V = SpecResponse;

    open spec fn view(&self) -> SpecResponse {
        SpecResponse {
            response_components: self.response_components.deep_view(),
            response_done: self.response_done@,
        }
    }
}

impl DeepView for Response {
    type V = SpecResponse;

    open spec fn deep_view(&self) -> SpecResponse {
        self.view()
    }
}

impl View for ResponseComponent {
    type V = SpecResponseComponent;

    open spec fn view(&self) -> SpecResponseComponent {
        match self {
            ResponseComponent::ContinueReq(c) => SpecResponseComponent::ContinueReq(c@),
            ResponseComponent::ResponseData(d) => SpecResponseComponent::ResponseData(d@),
        }
    }
}

impl DeepView for ResponseComponent {
    type V = SpecResponseComponent;

    open spec fn deep_view(&self) -> SpecResponseComponent {
        self.view()
    }
}

impl View for ResponseData {
    type V = SpecResponseData;

    open spec fn view(&self) -> SpecResponseData {
        match self {
            ResponseData::RespCondBye(b) => SpecResponseData::RespCondBye(b@),
            ResponseData::RespCondState(s) => SpecResponseData::RespCondState(s@),
            ResponseData::MessageData(m) => SpecResponseData::MessageData(m@),
        }
    }
}

impl DeepView for ResponseData {
    type V = SpecResponseData;

    open spec fn deep_view(&self) -> SpecResponseData {
        self.view()
    }
}

impl View for ResponseDone {
    type V = SpecResponseDone;

    open spec fn view(&self) -> SpecResponseDone {
        match self {
            ResponseDone::ResponseTagged(t) => SpecResponseDone::ResponseTagged(t@),
            ResponseDone::ResponseFatal(f) => SpecResponseDone::ResponseFatal(f@),
        }
    }
}

impl DeepView for ResponseDone {
    type V = SpecResponseDone;

    open spec fn deep_view(&self) -> SpecResponseDone {
        self.view()
    }
}

impl View for ResponseFatal {
    type V = SpecRespText;

    open spec fn view(&self) -> SpecRespText {
        self.resp_cond_bye@
    }
}

impl DeepView for ResponseFatal {
    type V = SpecRespText;

    open spec fn deep_view(&self) -> SpecRespText {
        self.view()
    }
}

impl View for ResponseTagged {
    type V = SpecResponseTagged;

    open spec fn view(&self) -> SpecResponseTagged {
        SpecResponseTagged { tag: self.tag@, resp_cond_state: self.resp_cond_state@ }
    }
}

impl DeepView for ResponseTagged {
    type V = SpecResponseTagged;

    open spec fn deep_view(&self) -> SpecResponseTagged {
        self.view()
    }
}

impl View for RespText {
    type V = SpecRespText;

    open spec fn view(&self) -> SpecRespText {
        SpecRespText { resp_text_code: self.resp_text_code, text: self.text@ }
    }
}

impl DeepView for RespText {
    type V = SpecRespText;

    open spec fn deep_view(&self) -> SpecRespText {
        self.view()
    }
}

impl View for RespTextCode {
    type V = RespTextCode;

    open spec fn view(&self) -> RespTextCode {
        *self
    }
}

impl DeepView for RespTextCode {
    type V = RespTextCode;

    open spec fn deep_view(&self) -> RespTextCode {
        *self
    }
}

impl View for SectionSpec {
    type V = SpecSectionSpec;

    open spec fn view(&self) -> SpecSectionSpec {
        match self {
            SectionSpec::SectionMsgtext(m) => SpecSectionSpec::SectionMsgtext(m@),
            SectionSpec::SectionSpecComponent(c) => SpecSectionSpec::SectionSpecComponent(c@),
        }
    }
}

impl DeepView for SectionSpec {
    type V = SpecSectionSpec;

    open spec fn deep_view(&self) -> SpecSectionSpec {
        self.view()
    }
}

impl View for SectionSpecComponent {
    type V = SpecSectionSpecComponent;

    open spec fn view(&self) -> SpecSectionSpecComponent {
        SpecSectionSpecComponent {
            section_part: self.section_part@,
            section_text: self.section_text.deep_view(),
        }
    }
}

impl DeepView for SectionSpecComponent {
    type V = SpecSectionSpecComponent;

    open spec fn deep_view(&self) -> SpecSectionSpecComponent {
        self.view()
    }
}

impl View for SectionText {
    type V = SpecSectionText;

    open spec fn view(&self) -> SpecSectionText {
        match self {
            SectionText::MIME => SpecSectionText::MIME,
            SectionText::SectionMsgtext(m) => SpecSectionText::SectionMsgtext(m@),
        }
    }
}

impl DeepView for SectionText {
    type V = SpecSectionText;

    open spec fn deep_view(&self) -> SpecSectionText {
        self.view()
    }
}

impl View for SectionMsgtext {
    type V = SpecSectionMsgtext;

    open spec fn view(&self) -> SpecSectionMsgtext {
        match self {
            SectionMsgtext::Header => SpecSectionMsgtext::Header,
            SectionMsgtext::HeaderFields((not, list)) => SpecSectionMsgtext::HeaderFields(
                *not,
                list@,
            ),
            SectionMsgtext::Text => SpecSectionMsgtext::Text,
        }
    }
}

impl DeepView for SectionMsgtext {
    type V = SpecSectionMsgtext;

    open spec fn deep_view(&self) -> SpecSectionMsgtext {
        self.view()
    }
}

impl View for SectionPart {
    type V = Seq<u32>;

    open spec fn view(&self) -> Seq<u32> {
        self.numbers@
    }
}

impl DeepView for SectionPart {
    type V = Seq<u32>;

    open spec fn deep_view(&self) -> Seq<u32> {
        self.view()
    }
}

impl View for HeaderList {
    type V = Seq<SpecAString>;

    open spec fn view(&self) -> Seq<SpecAString> {
        self.header_fld_names.deep_view()
    }
}

impl DeepView for HeaderList {
    type V = Seq<SpecAString>;

    open spec fn deep_view(&self) -> Seq<SpecAString> {
        self.view()
    }
}

impl View for AString {
    type V = SpecAString;

    open spec fn view(&self) -> SpecAString {
        match self {
            AString::String(s) => SpecAString::String(s@),
            AString::Achars(s) => SpecAString::Achars(s@),
        }
    }
}

impl DeepView for AString {
    type V = SpecAString;

    open spec fn deep_view(&self) -> SpecAString {
        self.view()
    }
}

impl View for Tag {
    type V = Seq<char>;

    open spec fn view(&self) -> Seq<char> {
        self.chars@
    }
}

impl DeepView for Tag {
    type V = Seq<char>;

    open spec fn deep_view(&self) -> Seq<char> {
        self.view()
    }
}

impl View for Text {
    type V = Seq<char>;

    open spec fn view(&self) -> Seq<char> {
        self.text@
    }
}

impl DeepView for Text {
    type V = Seq<char>;

    open spec fn deep_view(&self) -> Seq<char> {
        self.view()
    }
}

} // verus!
