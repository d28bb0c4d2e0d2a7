//! OpenAI-compatible embeddings: the configuration, the request and what its reply means.
use vstd::prelude::*;
use vstd::utf8::encode_utf8;

use crate::text::copied_texts;
use crate::text::decimal;
use crate::text::decimal_text;
use crate::text::joined;
use crate::text::lemma_trim_end_leaves_no_mark;
use crate::text::occurs_at;
use crate::text::outcome;
use crate::text::text_or;
use crate::text::text_or_else;
use crate::text::text_starts_with;
use crate::text::text_trim_end;
use crate::text::trim_end;
use crate::text::trimming_takes_the_marks_at_the_end;

verus! {

/// The message for a missing key.
pub const NO_API_KEY: &'static str =
    "set CLAW_RAG_OPENAI_API_KEY or OPENAI_API_KEY for embeddings";

/// The endpoint where none is set.
pub const DEFAULT_BASE_URL: &'static str = "https://api.openai.com/v1";

/// The model where none is set.
pub const DEFAULT_MODEL: &'static str = "text-embedding-3-small";

/// How the endpoint of the mock begins.
pub const MOCK_URL: &'static str = "mock://";

/// Where embeddings come from.
#[derive(Clone, Debug)]
pub struct EmbedConfig {
    pub api_key: String,
    pub base_url: String,
    pub model: String,
}

/// What a configuration holds.
#[verifier::ext_equal]
pub struct EmbedConfigView {
    pub api_key: Seq<char>,
    pub base_url: Seq<char>,
    pub model: Seq<char>,
}

impl DeepView for EmbedConfig {
    type V = EmbedConfigView;

    open spec fn deep_view(&self) -> EmbedConfigView {
        EmbedConfigView { api_key: self.api_key@, base_url: self.base_url@, model: self.model@ }
    }
}

impl EmbedConfigView {
    /// The configuration that the environment gives.
    pub open spec fn from_env(
        own_key: Option<Seq<char>>,
        openai_key: Option<Seq<char>>,
        base_url: Option<Seq<char>>,
        model: Option<Seq<char>>,
    ) -> Result<EmbedConfigView, Seq<char>> {
        match (own_key, openai_key) {
            (None, None) => Err(NO_API_KEY@),
            _ => Ok(
                EmbedConfigView {
                    api_key: if own_key is Some {
                        own_key->0
                    } else {
                        openai_key->0
                    },
                    base_url: trim_end(text_or_else(base_url, DEFAULT_BASE_URL@), '/'),
                    model: text_or_else(model, DEFAULT_MODEL@),
                },
            ),
        }
    }

    /// Whether vectors are made up instead of asked for.
    pub open spec fn is_mock(self) -> bool {
        occurs_at(self.base_url, MOCK_URL@, 0)
    }
}

impl EmbedConfig {
    /// The configuration that the environment gives, by the values of `CLAW_RAG_OPENAI_API_KEY`,
    /// `OPENAI_API_KEY`, `CLAW_RAG_EMBEDDING_BASE_URL` and `CLAW_RAG_EMBEDDING_MODEL` where they
    /// are set.
    pub fn from_env(
        own_key: Option<String>,
        openai_key: Option<String>,
        base_url: Option<String>,
        model: Option<String>,
    ) -> (config: Result<Self, String>)
        ensures
            outcome(config) == EmbedConfigView::from_env(
                own_key.deep_view(),
                openai_key.deep_view(),
                base_url.deep_view(),
                model.deep_view(),
            ),
    {
        let api_key = match own_key {
            Some(key) => key,
            None => match openai_key {
                Some(key) => key,
                None => {
                    return Err(NO_API_KEY.to_string());
                },
            },
        };
        let base_url = text_or(base_url, DEFAULT_BASE_URL);
        Ok(
            EmbedConfig {
                api_key,
                base_url: text_trim_end(base_url.as_str(), '/'),
                model: text_or(model, DEFAULT_MODEL),
            },
        )
    }

    /// Deterministic fake vectors for tests and dry runs, if the value of
    /// `CLAW_RAG_MOCK_PROVIDERS` asks for them. They have 1536 components ([`MOCK_DIM`]), as those
    /// of common `OpenAI` models; ingest uses the same mock for all texts.
    #[must_use]
    pub fn mock_from_env(mock_providers: Option<String>) -> (config: Option<Self>)
        ensures
            config.deep_view() == (if mock_providers.deep_view() == Some("1"@) {
                Some(
                    EmbedConfigView {
                        api_key: "mock"@,
                        base_url: MOCK_URL@,
                        model: "mock-embedding"@,
                    },
                )
            } else {
                None
            }),
    {
        match mock_providers {
            Some(value) => {
                if value == "1".to_string() {
                    Some(
                        EmbedConfig {
                            api_key: "mock".to_string(),
                            base_url: MOCK_URL.to_string(),
                            model: "mock-embedding".to_string(),
                        },
                    )
                } else {
                    None
                }
            },
            None => None,
        }
    }
}

/// What a configuration is seen to hold is what it holds.
pub proof fn config_is_seen_whole(config: EmbedConfig)
    ensures
        config.deep_view().api_key == config.api_key@,
        config.deep_view().base_url == config.base_url@,
        config.deep_view().model == config.model@,
{
}

/// The library's own key comes before that of `OpenAI`; with either there is a configuration, and
/// without both there is none and the variables are named.
pub proof fn own_key_comes_first(
    own_key: Option<Seq<char>>,
    openai_key: Option<Seq<char>>,
    base_url: Option<Seq<char>>,
    model: Option<Seq<char>>,
)
    ensures
        ({
            let config = EmbedConfigView::from_env(own_key, openai_key, base_url, model);
            &&& own_key matches Some(key) ==> config is Ok && config->Ok_0.api_key == key
            &&& own_key is None ==> (openai_key matches Some(key) ==> config is Ok
                && config->Ok_0.api_key == key)
            &&& own_key is None && openai_key is None ==> config == Err::<EmbedConfigView, _>(
                "set CLAW_RAG_OPENAI_API_KEY or OPENAI_API_KEY for embeddings"@,
            )
        }),
{
}

/// A configuration takes the endpoint and the model that are set, the endpoint without the slashes
/// at its end and otherwise as it is, whatever the keys; what is not set is that of `OpenAI`.
pub proof fn config_takes_what_is_set(
    own_key: Option<Seq<char>>,
    openai_key: Option<Seq<char>>,
    base_url: Option<Seq<char>>,
    model: Option<Seq<char>>,
)
    ensures
        EmbedConfigView::from_env(own_key, openai_key, base_url, model) matches Ok(config) ==> {
            let url = if base_url is Some {
                base_url->0
            } else {
                "https://api.openai.com/v1"@
            };
            let taken = config.base_url;
            &&& config.model == if model is Some {
                model->0
            } else {
                "text-embedding-3-small"@
            }
            &&& taken.len() <= url.len()
            &&& forall|i: int| 0 <= i < taken.len() ==> taken[i] == url[i]
            &&& forall|i: int| taken.len() <= i < url.len() ==> url[i] == '/'
            &&& taken.len() > 0 ==> taken.last() != '/'
        },
{
    trimming_takes_the_marks_at_the_end(text_or_else(base_url, DEFAULT_BASE_URL@), '/');
}

/// A configuration leads to the mock exactly where its endpoint begins with the seven characters of
/// the mock's.
pub proof fn mock_is_told_by_its_beginning(config: EmbedConfigView)
    ensures
        config.is_mock() <==> config.base_url.len() >= 7 && config.base_url.take(7) == "mock://"@,
{
    reveal_strlit("mock://");
    if config.base_url.len() >= 7 {
        assert(config.base_url.take(7) =~= config.base_url.subrange(0, 7));
    }
}

/// A configured endpoint never ends in a slash, so that a path can be hung on it.
pub proof fn configured_url_takes_a_path(
    own_key: Option<Seq<char>>,
    openai_key: Option<Seq<char>>,
    base_url: Option<Seq<char>>,
    model: Option<Seq<char>>,
)
    ensures
        EmbedConfigView::from_env(own_key, openai_key, base_url, model) matches Ok(config) ==> (
        config.base_url.len() > 0 ==> config.base_url.last() != '/'),
{
    lemma_trim_end_leaves_no_mark(text_or_else(base_url, DEFAULT_BASE_URL@), '/');
}

/// The configuration of the mock leads to the mock, whatever its key and model.
pub proof fn mock_url_is_the_mock(api_key: Seq<char>, model: Seq<char>)
    ensures
        (EmbedConfigView { api_key, base_url: MOCK_URL@, model }).is_mock(),
{
    assert(MOCK_URL@.subrange(0, MOCK_URL@.len() as int) =~= MOCK_URL@);
}

/// The number of components of a mock vector, which is that of common `OpenAI` models.
pub const MOCK_DIM: usize = 1536;

/// How many bytes of a text a mock vector is made of.
pub const MOCK_BYTES: usize = MOCK_DIM * 4;

/// How many bytes of `bytes` a mock vector takes in.
pub open spec fn mock_taken(bytes: Seq<u8>) -> int {
    if bytes.len() < MOCK_BYTES {
        bytes.len() as int
    } else {
        MOCK_BYTES as int
    }
}

/// The bytes that add to component `component` of a mock vector, in the order in which they add:
/// of the first [`MOCK_BYTES`] those whose positions are [`MOCK_DIM`] apart, from `component` on.
pub open spec fn mock_lane(bytes: Seq<u8>, component: int) -> Seq<u8> {
    Seq::new(
        ((mock_taken(bytes) - component + MOCK_DIM - 1) / MOCK_DIM as int) as nat,
        |k: int| bytes[component + MOCK_DIM * k],
    )
}

/// The bytes that add to each component of a mock vector.
pub open spec fn mock_lanes(bytes: Seq<u8>) -> Seq<Seq<u8>> {
    Seq::new(MOCK_DIM as nat, |component: int| mock_lane(bytes, component))
}

/// Every byte that a mock vector takes in adds to the component that its position falls on.
pub proof fn mock_lanes_hold_each_byte(bytes: Seq<u8>, at: int)
    requires
        0 <= at < mock_taken(bytes),
    ensures
        at / (MOCK_DIM as int) < mock_lanes(bytes)[at % MOCK_DIM as int].len(),
        mock_lanes(bytes)[at % MOCK_DIM as int][at / MOCK_DIM as int] == bytes[at],
{
}

/// A mock vector has 1536 components, and each of its components is made of bytes of the text whose
/// positions fall on it, in order, among the first 6144, and of nothing else.
pub proof fn mock_lanes_hold_nothing_else(bytes: Seq<u8>, component: int, k: int)
    requires
        0 <= component < 1536,
        0 <= k < mock_lanes(bytes)[component].len(),
    ensures
        mock_lanes(bytes).len() == 1536,
        component + 1536 * k < bytes.len(),
        component + 1536 * k < 6144,
        mock_lanes(bytes)[component][k] == bytes[component + 1536 * k],
{
}

/// Every one of the first 6144 bytes of a text is in the mock vector, in the component that its
/// position falls on.
pub proof fn mock_lanes_pass_over_no_byte(bytes: Seq<u8>, at: int)
    requires
        0 <= at < bytes.len(),
        at < 6144,
    ensures
        at / 1536 < mock_lanes(bytes)[at % 1536].len(),
        mock_lanes(bytes)[at % 1536][at / 1536] == bytes[at],
{
}

/// Texts whose first bytes are the same get the same mock vector.
pub proof fn mock_lanes_see_the_beginning(bytes: Seq<u8>)
    ensures
        mock_lanes(bytes) == mock_lanes(bytes.take(mock_taken(bytes))),
{
    assert forall|component: int| 0 <= component < MOCK_DIM implies mock_lane(bytes, component)
        =~= mock_lane(bytes.take(mock_taken(bytes)), component) by {}
    assert(mock_lanes(bytes) =~= mock_lanes(bytes.take(mock_taken(bytes))));
}

/// The bytes that add to each component of the mock vector of `text`.
///
/// The vector is the sums of these bytes, each as a fraction of 255, scaled to length one.
pub fn mock_lanes_for_text(text: &str) -> (lanes: Vec<Vec<u8>>)
    ensures
        lanes.deep_view() == mock_lanes(encode_utf8(text@)),
{
    let bytes = text.as_bytes();
    let taken: usize = if bytes.len() < MOCK_BYTES { bytes.len() } else { MOCK_BYTES };
    let mut lanes: Vec<Vec<u8>> = Vec::new();
    for component in 0..MOCK_DIM
        invariant
            taken == mock_taken(bytes@),
            taken <= bytes@.len(),
            taken <= MOCK_BYTES,
            lanes.deep_view() == mock_lanes(bytes@).take(component as int),
    {
        let mut lane: Vec<u8> = Vec::new();
        let mut at: usize = component;
        while at < taken
            invariant
                component < MOCK_DIM,
                taken == mock_taken(bytes@),
                taken <= bytes@.len(),
                taken <= MOCK_BYTES,
                at == component + MOCK_DIM * lane@.len(),
                lane@.len() <= mock_lane(bytes@, component as int).len(),
                lane@ == mock_lane(bytes@, component as int).take(lane@.len() as int),
            decreases MOCK_BYTES + MOCK_DIM - at,
        {
            lane.push(bytes[at]);
            at = at + MOCK_DIM;
        }
        assert(lane@ =~= mock_lane(bytes@, component as int));
        let ghost before = lanes.deep_view();
        lanes.push(lane);
        assert(lane.deep_view() =~= lane@);
        assert(lanes.deep_view() =~= before.push(lane@));
        assert(lanes.deep_view() =~= mock_lanes(bytes@).take(component + 1));
    }
    assert(mock_lanes(bytes@).take(MOCK_DIM as int) =~= mock_lanes(bytes@));
    lanes
}

/// Whether two vectors of these lengths have a cosine: they are as long as each other and not
/// empty. Where they have none their similarity is zero.
pub open spec fn comparable(a_len: nat, b_len: nat) -> bool {
    a_len == b_len && a_len > 0
}

/// Vectors have a cosine exactly where they are equally long and not empty.
pub proof fn equal_lengths_have_a_cosine(a_len: nat, b_len: nat)
    ensures
        comparable(a_len, b_len) <==> a_len == b_len && a_len != 0,
{
}

/// Whether two vectors of these lengths have a cosine.
pub fn vectors_comparable(a_len: usize, b_len: usize) -> (have_cosine: bool)
    ensures
        have_cosine == comparable(a_len as nat, b_len as nat),
{
    a_len == b_len && a_len != 0
}

/// What the reply to a request for embeddings says when it is refused.
pub const HTTP_ERROR: &'static str = "embeddings HTTP error: ";

/// The request for the embeddings of some texts: a `POST` with a JSON body of `model` and `input`.
pub struct EmbedRequest {
    pub url: String,
    /// The `Authorization` header.
    pub authorization: String,
    /// The `Content-Type` header.
    pub content_type: &'static str,
    pub model: String,
    pub input: Vec<String>,
}

/// What a request for embeddings holds.
#[verifier::ext_equal]
pub struct EmbedRequestView {
    pub url: Seq<char>,
    pub authorization: Seq<char>,
    pub content_type: Seq<char>,
    pub model: Seq<char>,
    pub input: Seq<Seq<char>>,
}

impl DeepView for EmbedRequest {
    type V = EmbedRequestView;

    open spec fn deep_view(&self) -> EmbedRequestView {
        EmbedRequestView {
            url: self.url@,
            authorization: self.authorization@,
            content_type: self.content_type@,
            model: self.model@,
            input: self.input.deep_view(),
        }
    }
}

/// What a request is seen to hold is what it holds, text by text.
pub proof fn request_is_seen_whole(request: EmbedRequest)
    ensures
        request.deep_view().url == request.url@,
        request.deep_view().authorization == request.authorization@,
        request.deep_view().content_type == request.content_type@,
        request.deep_view().model == request.model@,
        request.deep_view().input.len() == request.input@.len(),
        forall|i: int|
            #![trigger request.input@[i]]
            0 <= i < request.input@.len() ==> request.deep_view().input[i] == request.input@[i]@,
{
}

/// What a run of [`embed_batch`] waits for.
pub enum EmbedStage {
    /// The status of the reply.
    Sending,
    /// The body of a refusal.
    ReadingError,
    /// The vectors in the reply.
    ReadingVectors,
    /// Nothing more.
    Finished,
}

/// A run of [`embed_batch`].
pub struct EmbedRun {
    /// How many texts the run embeds.
    pub inputs: usize,
    pub stage: EmbedStage,
}

/// What came of an [`EmbedAction`].
pub enum EmbedEvent {
    /// The request was answered with this status, or not at all.
    Sent(Result<u16, String>),
    /// The body of a refusal, where it could be read.
    ErrorBody(Option<String>),
    /// The vectors in the reply, by the bits of their components, or why it could not be read.
    Vectors(Result<Vec<Vec<u32>>, String>),
}

/// What came of an [`EmbedAction`], by what it holds.
pub enum EmbedEventView {
    Sent(Result<u16, Seq<char>>),
    ErrorBody(Option<Seq<char>>),
    Vectors(Result<Seq<Seq<u32>>, Seq<char>>),
}

impl DeepView for EmbedEvent {
    type V = EmbedEventView;

    open spec fn deep_view(&self) -> EmbedEventView {
        match *self {
            EmbedEvent::Sent(reply) => EmbedEventView::Sent(outcome(reply)),
            EmbedEvent::ErrorBody(body) => EmbedEventView::ErrorBody(body.deep_view()),
            EmbedEvent::Vectors(vectors) => EmbedEventView::Vectors(outcome(vectors)),
        }
    }
}

/// What a run of [`embed_batch`] asks for next.
pub enum EmbedAction {
    /// Make up the vectors from these bytes, as [`mock_lanes_for_text`] says; the run is over.
    Mock(Vec<Vec<Vec<u8>>>),
    /// Send the request.
    Post(EmbedRequest),
    /// Read the body of the reply as text.
    ReadErrorBody,
    /// Read the body of the reply as vectors.
    ReadVectors,
    /// The run is over: the vectors, one to a text, or why there are none.
    Finish(Result<Vec<Vec<u32>>, String>),
}

/// What a run of [`embed_batch`] asks for next, by what it holds.
pub enum EmbedActionView {
    Mock(Seq<Seq<Seq<u8>>>),
    Post(EmbedRequestView),
    ReadErrorBody,
    ReadVectors,
    Finish(Result<Seq<Seq<u32>>, Seq<char>>),
}

impl DeepView for EmbedAction {
    type V = EmbedActionView;

    open spec fn deep_view(&self) -> EmbedActionView {
        match *self {
            EmbedAction::Mock(lanes) => EmbedActionView::Mock(lanes.deep_view()),
            EmbedAction::Post(request) => EmbedActionView::Post(request.deep_view()),
            EmbedAction::ReadErrorBody => EmbedActionView::ReadErrorBody,
            EmbedAction::ReadVectors => EmbedActionView::ReadVectors,
            EmbedAction::Finish(vectors) => EmbedActionView::Finish(outcome(vectors)),
        }
    }
}

/// What events and actions are seen to hold is what they hold.
pub proof fn embed_course_is_seen_whole(event: EmbedEvent, action: EmbedAction)
    ensures
        match event {
            EmbedEvent::Sent(Ok(status)) => event.deep_view() == EmbedEventView::Sent(Ok(status)),
            EmbedEvent::Sent(Err(message)) => event.deep_view() == EmbedEventView::Sent(
                Err(message@),
            ),
            EmbedEvent::ErrorBody(Some(body)) => event.deep_view() == EmbedEventView::ErrorBody(
                Some(body@),
            ),
            EmbedEvent::ErrorBody(None) => event.deep_view() == EmbedEventView::ErrorBody(None),
            EmbedEvent::Vectors(Ok(vectors)) => event.deep_view() matches EmbedEventView::Vectors(
                Ok(seen),
            ) && seen.len() == vectors@.len() && forall|i: int|
                #![trigger vectors@[i]]
                0 <= i < seen.len() ==> seen[i] == vectors@[i]@,
            EmbedEvent::Vectors(Err(message)) => event.deep_view() == EmbedEventView::Vectors(
                Err(message@),
            ),
        },
        match action {
            EmbedAction::Mock(batch) => action.deep_view() matches EmbedActionView::Mock(seen)
                && seen.len() == batch@.len() && forall|i: int|
                #![trigger batch@[i]]
                0 <= i < seen.len() ==> seen[i] == batch@[i].deep_view(),
            EmbedAction::Post(request) => action.deep_view() == EmbedActionView::Post(
                request.deep_view(),
            ),
            EmbedAction::ReadErrorBody => action.deep_view() is ReadErrorBody,
            EmbedAction::ReadVectors => action.deep_view() is ReadVectors,
            EmbedAction::Finish(Ok(vectors)) => action.deep_view() matches EmbedActionView::Finish(
                Ok(seen),
            ) && seen.len() == vectors@.len() && forall|i: int|
                #![trigger vectors@[i]]
                0 <= i < seen.len() ==> seen[i] == vectors@[i]@,
            EmbedAction::Finish(Err(message)) => action.deep_view() == EmbedActionView::Finish(
                Err(message@),
            ),
        },
{
    if let EmbedEvent::Vectors(Ok(vectors)) = event {
        lemma_vectors_are_seen_whole(vectors);
    }
    if let EmbedAction::Finish(Ok(vectors)) = action {
        lemma_vectors_are_seen_whole(vectors);
    }
}

proof fn lemma_vectors_are_seen_whole(vectors: Vec<Vec<u32>>)
    ensures
        vectors.deep_view().len() == vectors@.len(),
        forall|i: int|
            #![trigger vectors@[i]]
            0 <= i < vectors@.len() ==> vectors.deep_view()[i] == vectors@[i]@,
{
    assert forall|i: int|
        #![trigger vectors@[i]]
        0 <= i < vectors@.len() implies vectors.deep_view()[i] == vectors@[i]@ by {
        assert(vectors@[i].deep_view() =~= vectors@[i]@);
    }
}

/// The lanes of each of `texts`.
pub open spec fn mock_batch(texts: Seq<Seq<char>>) -> Seq<Seq<Seq<u8>>> {
    texts.map_values(|text: Seq<char>| mock_lanes(encode_utf8(text)))
}

/// The request for the embeddings of `texts`.
pub open spec fn embed_request(config: EmbedConfigView, texts: Seq<Seq<char>>) -> EmbedRequestView {
    EmbedRequestView {
        url: config.base_url + "/embeddings"@,
        authorization: "Bearer "@ + config.api_key,
        content_type: "application/json"@,
        model: config.model,
        input: texts,
    }
}

/// The mock embeds every text by itself, whole and in order.
pub proof fn mock_embeds_every_text(texts: Seq<Seq<char>>, i: int)
    requires
        0 <= i < texts.len(),
    ensures
        mock_batch(texts).len() == texts.len(),
        mock_batch(texts)[i] == mock_lanes(encode_utf8(texts[i])),
{
}

/// A request holds every text to be embedded, whole and in order.
pub proof fn request_holds_every_text(config: EmbedConfigView, texts: Seq<Seq<char>>)
    ensures
        embed_request(config, texts).input.len() == texts.len(),
        forall|i: int|
            0 <= i < texts.len() ==> #[trigger] embed_request(config, texts).input[i] == texts[i],
{
}

/// A request goes to the path of embeddings below the endpoint, with the configured key and model,
/// whatever the texts.
pub proof fn request_follows_the_configuration(config: EmbedConfigView, texts: Seq<Seq<char>>)
    ensures
        embed_request(config, texts).url == config.base_url + "/embeddings"@,
        embed_request(config, texts).authorization == "Bearer "@ + config.api_key,
        embed_request(config, texts).content_type == "application/json"@,
        embed_request(config, texts).model == config.model,
{
}

/// What to say of a reply with `got` vectors for `inputs` texts.
pub open spec fn count_mismatch(got: nat, inputs: nat) -> Seq<char> {
    "embeddings count mismatch: got "@ + decimal(got) + " for "@ + decimal(inputs) + " inputs"@
}

/// The outcome of a request for `inputs` vectors whose reply holds `vectors`.
pub open spec fn embed_outcome(inputs: nat, vectors: Result<Seq<Seq<u32>>, Seq<char>>) -> Result<
    Seq<Seq<u32>>,
    Seq<char>,
> {
    match vectors {
        Ok(found) => if found.len() == inputs {
            Ok(found)
        } else {
            Err(count_mismatch(found.len(), inputs))
        },
        Err(message) => Err(message),
    }
}

/// Whether a reply with this status grants the request.
pub open spec fn is_success(status: u16) -> bool {
    200 <= status < 300
}

/// Whether a reply with this status grants the request.
///
/// Calls `reqwest::StatusCode::from_u16` and, where that knows the number, `is_success`. Claimed:
/// the numbers from 200 to 299 are known and a success, and of the others none is both.
#[verifier::external_body]
fn status_is_success(status: u16) -> (success: bool)
    ensures
        success == is_success(status),
{
    match reqwest::StatusCode::from_u16(status) {
        Ok(code) => code.is_success(),
        Err(_) => false,
    }
}

/// A reply grants the request exactly where its status has three digits and begins with a two.
pub proof fn success_begins_with_a_two(status: u16)
    ensures
        is_success(status) <==> status / 100 == 2,
{
}

/// Starts to embed `texts`: from the mock at once, else by a request.
pub fn embed_batch(config: &EmbedConfig, texts: &[String]) -> (started: (EmbedRun, EmbedAction))
    ensures
        started.0.inputs == texts@.len(),
        config.deep_view().is_mock() ==> {
            &&& started.0.stage is Finished
            &&& started.1.deep_view() == EmbedActionView::Mock(mock_batch(texts.deep_view()))
        },
        !config.deep_view().is_mock() ==> {
            &&& started.0.stage is Sending
            &&& started.1.deep_view() == EmbedActionView::Post(
                embed_request(config.deep_view(), texts.deep_view()),
            )
        },
{
    if text_starts_with(config.base_url.as_str(), MOCK_URL) {
        let mut batch: Vec<Vec<Vec<u8>>> = Vec::new();
        for i in 0..texts.len()
            invariant
                batch.deep_view() == mock_batch(texts.deep_view()).take(i as int),
        {
            let ghost before = batch.deep_view();
            let lanes = mock_lanes_for_text(texts[i].as_str());
            batch.push(lanes);
            assert(batch.deep_view() =~= before.push(lanes.deep_view()));
            assert(batch.deep_view() =~= mock_batch(texts.deep_view()).take(i + 1));
        }
        assert(mock_batch(texts.deep_view()).take(texts@.len() as int) =~= mock_batch(
            texts.deep_view(),
        ));
        return (
            EmbedRun { inputs: texts.len(), stage: EmbedStage::Finished },
            EmbedAction::Mock(batch),
        );
    }
    let request = EmbedRequest {
        url: joined(config.base_url.as_str(), "/embeddings"),
        authorization: joined("Bearer ", config.api_key.as_str()),
        content_type: "application/json",
        model: config.model.clone(),
        input: copied_texts(texts),
    };
    (EmbedRun { inputs: texts.len(), stage: EmbedStage::Sending }, EmbedAction::Post(request))
}

impl EmbedRun {
    /// Whether `event` is what the run waits for.
    pub open spec fn awaits(self, event: EmbedEventView) -> bool {
        match (self.stage, event) {
            (EmbedStage::Sending, EmbedEventView::Sent(_)) => true,
            (EmbedStage::ReadingError, EmbedEventView::ErrorBody(_)) => true,
            (EmbedStage::ReadingVectors, EmbedEventView::Vectors(_)) => true,
            _ => false,
        }
    }

    /// What the run waits for after `event`, and what it asks for.
    pub open spec fn next(self, event: EmbedEventView) -> (EmbedStage, EmbedActionView) {
        match event {
            EmbedEventView::Sent(Ok(status)) => if is_success(status) {
                (EmbedStage::ReadingVectors, EmbedActionView::ReadVectors)
            } else {
                (EmbedStage::ReadingError, EmbedActionView::ReadErrorBody)
            },
            EmbedEventView::Sent(Err(message)) => (
                EmbedStage::Finished,
                EmbedActionView::Finish(Err(message)),
            ),
            EmbedEventView::ErrorBody(body) => (
                EmbedStage::Finished,
                EmbedActionView::Finish(Err(HTTP_ERROR@ + text_or_else(body, seq![]))),
            ),
            EmbedEventView::Vectors(vectors) => (
                EmbedStage::Finished,
                EmbedActionView::Finish(embed_outcome(self.inputs as nat, vectors)),
            ),
        }
    }

    /// Whether `event` is what the run waits for.
    pub fn expects(&self, event: &EmbedEvent) -> (expected: bool)
        ensures
            expected == self.awaits(event.deep_view()),
    {
        match (&self.stage, event) {
            (EmbedStage::Sending, EmbedEvent::Sent(_)) => true,
            (EmbedStage::ReadingError, EmbedEvent::ErrorBody(_)) => true,
            (EmbedStage::ReadingVectors, EmbedEvent::Vectors(_)) => true,
            _ => false,
        }
    }

    /// Goes on with what came of the last action.
    pub fn step(self, event: EmbedEvent) -> (stepped: (EmbedRun, EmbedAction))
        requires
            self.awaits(event.deep_view()),
        ensures
            stepped.0.inputs == self.inputs,
            (stepped.0.stage, stepped.1.deep_view()) == self.next(event.deep_view()),
    {
        proof {
            reveal_strlit("");
            assert(""@ =~= seq![]);
        }
        let inputs = self.inputs;
        let (stage, action) = match event {
            EmbedEvent::Sent(Ok(status)) => if status_is_success(status) {
                (EmbedStage::ReadingVectors, EmbedAction::ReadVectors)
            } else {
                (EmbedStage::ReadingError, EmbedAction::ReadErrorBody)
            },
            EmbedEvent::Sent(Err(message)) => (
                EmbedStage::Finished,
                EmbedAction::Finish(Err(message)),
            ),
            EmbedEvent::ErrorBody(body) => (
                EmbedStage::Finished,
                EmbedAction::Finish(Err(joined(HTTP_ERROR, text_or(body, "").as_str()))),
            ),
            EmbedEvent::Vectors(Ok(vectors)) => {
                let finished = if vectors.len() == inputs {
                    Ok(vectors)
                } else {
                    let got = decimal_text(vectors.len());
                    Err(
                        joined("embeddings count mismatch: got ", got.as_str()).concat(
                            " for ",
                        ).concat(decimal_text(inputs).as_str()).concat(" inputs"),
                    )
                };
                (EmbedStage::Finished, EmbedAction::Finish(finished))
            },
            EmbedEvent::Vectors(Err(message)) => (
                EmbedStage::Finished,
                EmbedAction::Finish(Err(message)),
            ),
        };
        (EmbedRun { inputs, stage }, action)
    }
}

/// How many more events a run can take in at this stage.
pub open spec fn embed_steps_left(stage: EmbedStage) -> nat {
    match stage {
        EmbedStage::Sending => 2,
        EmbedStage::ReadingError => 1,
        EmbedStage::ReadingVectors => 1,
        EmbedStage::Finished => 0,
    }
}

/// Every event brings a run nearer to its end, and a run is over exactly when it gives its
/// outcome.
pub proof fn embed_run_ends(run: EmbedRun, event: EmbedEventView)
    requires
        run.awaits(event),
    ensures
        embed_steps_left(run.next(event).0) < embed_steps_left(run.stage),
        run.next(event).0 is Finished <==> run.next(event).1 is Finish,
{
}

/// A run waits for the status after it has sent its request, then for the body that the status
/// calls for, and for nothing else.
pub proof fn embed_run_takes_one_reply_at_a_time(run: EmbedRun, event: EmbedEventView)
    ensures
        run.stage is Sending ==> (run.awaits(event) <==> event is Sent),
        run.stage is ReadingError ==> (run.awaits(event) <==> event is ErrorBody),
        run.stage is ReadingVectors ==> (run.awaits(event) <==> event is Vectors),
        run.stage is Finished ==> !run.awaits(event),
{
}

/// A reply with a vector to each text ends the run with these vectors as they came; a reply with
/// more or fewer ends it with both numbers.
pub proof fn vectors_are_given_as_they_came(run: EmbedRun, vectors: Seq<Seq<u32>>)
    ensures
        ({
            let (stage, action) = run.next(EmbedEventView::Vectors(Ok(vectors)));
            &&& stage is Finished
            &&& vectors.len() == run.inputs ==> action == EmbedActionView::Finish(Ok(vectors))
            &&& vectors.len() != run.inputs ==> action == EmbedActionView::Finish(
                Err(
                    "embeddings count mismatch: got "@ + decimal(vectors.len()) + " for "@
                        + decimal(run.inputs as nat) + " inputs"@,
                ),
            )
        }),
{
}

/// A status is followed by the reading of the body, as vectors where the request is granted and as
/// a text where not.
pub proof fn status_decides_how_to_read(run: EmbedRun, status: u16)
    ensures
        ({
            let (stage, action) = run.next(EmbedEventView::Sent(Ok(status)));
            if 200 <= status <= 299 {
                stage is ReadingVectors && action is ReadVectors
            } else {
                stage is ReadingError && action is ReadErrorBody
            }
        }),
{
}

/// A request that is not answered, and a reply that cannot be read, end the run with what was said
/// of it; a refusal ends it with its body, and without one with none.
pub proof fn failures_are_told_as_they_are(run: EmbedRun, message: Seq<char>)
    ensures
        run.next(EmbedEventView::Sent(Err(message))) == (
            EmbedStage::Finished,
            EmbedActionView::Finish(Err(message)),
        ),
        run.next(EmbedEventView::Vectors(Err(message))) == (
            EmbedStage::Finished,
            EmbedActionView::Finish(Err(message)),
        ),
        run.next(EmbedEventView::ErrorBody(Some(message))) == (
            EmbedStage::Finished,
            EmbedActionView::Finish(Err("embeddings HTTP error: "@ + message)),
        ),
        run.next(EmbedEventView::ErrorBody(None)) == (
            EmbedStage::Finished,
            EmbedActionView::Finish(Err("embeddings HTTP error: "@)),
        ),
{
    assert(HTTP_ERROR@ + seq![] =~= HTTP_ERROR@);
}

/// A run that succeeds gives one vector to a text.
pub proof fn embed_run_gives_a_vector_to_a_text(run: EmbedRun, event: EmbedEventView)
    requires
        run.awaits(event),
    ensures
        run.next(event).1 matches EmbedActionView::Finish(Ok(vectors)) ==> vectors.len()
            == run.inputs,
{
}

/// A mock run gives one vector to a text, each of the same number of components.
pub proof fn mock_batch_gives_a_vector_to_a_text(texts: Seq<Seq<char>>)
    ensures
        mock_batch(texts).len() == texts.len(),
        forall|i: int| 0 <= i < texts.len() ==> (#[trigger] mock_batch(texts)[i]).len() == MOCK_DIM,
{
}

/// A request that is refused ends with the text of the refusal, whatever the status was.
pub proof fn refusal_is_reported(run: EmbedRun, status: u16, body: Seq<char>)
    requires
        run.stage is Sending,
        !is_success(status),
    ensures
        ({
            let (stage, action) = run.next(EmbedEventView::Sent(Ok(status)));
            let refused = EmbedRun { inputs: run.inputs, stage };
            &&& action is ReadErrorBody
            &&& refused.awaits(EmbedEventView::ErrorBody(Some(body)))
            &&& refused.next(EmbedEventView::ErrorBody(Some(body))).1 == EmbedActionView::Finish(
                Err(HTTP_ERROR@ + body),
            )
        }),
{
}

} // verus!
