use openai_dive::v1::api::Client;
use vstd::prelude::*;

verus! {

/// `openai_dive::v1::api::Client`, carried through opaquely.
#[verifier::external_type_specification]
#[verifier::external_body]
pub struct ExClient(openai_dive::v1::api::Client);

/// The API key that an OpenAI client sends (its `api_key` field).
pub uninterp spec fn openai_client_key(client: Client) -> Seq<char>;

/// The base URL that an OpenAI client sends its requests to (its `base_url` field).
pub uninterp spec fn openai_client_base_url(client: Client) -> Seq<char>;

/// `reqwest::Client`, carried through opaquely.
#[verifier::external_type_specification]
#[verifier::external_body]
pub struct ExHttpClient(reqwest::Client);

/// Calls `reqwest::Client::builder().build()`, the form of `reqwest::Client::new()`
/// that reports a failure instead of panicking; the error (no TLS backend, or no
/// resolver configuration on this machine) becomes `None`.
/// Nothing is claimed: whether it succeeds depends on the machine.
#[verifier::external_body]
fn build_http_client() -> Option<reqwest::Client> {
    reqwest::Client::builder().build().ok()
}

/// Builds an `openai_dive::v1::api::Client` from its public fields: the given HTTP
/// client and API key, an empty base URL and no extra headers, organization or
/// project. That is what `Client::new(api_key)` builds, save that the HTTP client is
/// handed in rather than built with a panic on failure, and that the base URL is left
/// for `set_base_url` to fill.
/// Trusted: the client's key is `api_key`.
#[verifier::external_body]
fn assemble_openai_client(http_client: reqwest::Client, api_key: String) -> (client: Client)
    ensures
        openai_client_key(client) == api_key@,
{
    Client {
        http_client,
        base_url: String::new(),
        api_key,
        headers: None,
        organization: None,
        project: None,
    }
}

/// Calls `openai_dive::v1::api::Client::set_base_url(base_url)` on the client.
/// Trusted: afterwards the client's base URL is `base_url` and its key is unchanged,
/// as `set_base_url` assigns the `base_url` field alone.
#[verifier::external_body]
fn set_client_base_url(client: &mut Client, base_url: &str)
    ensures
        openai_client_base_url(*final(client)) == base_url@,
        openai_client_key(*final(client)) == openai_client_key(*old(client)),
{
    client.set_base_url(base_url);
}

/// The body of a request to a local embedding server.
pub struct LocalRequest {
    pub input: String,
    pub model: String,
}

/// One embedding as the OpenAI interface returns it: a vector of floats, each kept
/// as its IEEE-754 bit pattern, or a base64 text.
pub enum EmbeddingData {
    Float(Vec<u64>),
    Base64(String),
}

/// What the embedding client learns while it computes an embedding.
pub enum EmbedEvent {
    /// Nothing yet: the computation starts.
    Start,
    /// The local server answered; its items' embeddings, in order.
    LocalReply(Vec<Vec<u64>>),
    /// The OpenAI interface answered; its embeddings, in order.
    OpenAiReply(Vec<EmbeddingData>),
}

/// What the embedding client asks to be done next.
pub enum EmbedAction {
    /// Post `request` as JSON to `url` and report the reply as `EmbedEvent::LocalReply`.
    PostLocal { url: String, request: LocalRequest },
    /// Ask the OpenAI interface for a float embedding of `input` with `model` and
    /// report the reply as `EmbedEvent::OpenAiReply`.
    RequestOpenAi { model: String, input: String },
    /// The embedding is known: this is the answer.
    Finish(Option<Vec<u64>>),
}

/// The plain values of an embedding client.
pub struct EmbeddingClientView {
    pub embedding_model: Seq<char>,
    pub open_ai_url: Seq<char>,
    pub is_local: bool,
}

/// Computes embeddings of texts, from a local server or through the OpenAI interface.
pub struct EmbeddingClient {
    openai_client: Client,
    embedding_model: String,
    open_ai_url: String,
    is_local: bool,
}

impl View for EmbeddingClient {
    type V = EmbeddingClientView;

    closed spec fn view(&self) -> EmbeddingClientView {
        EmbeddingClientView {
            embedding_model: self.embedding_model@,
            open_ai_url: self.open_ai_url@,
            is_local: self.is_local,
        }
    }
}

/// The path, below the base URL, of a local server's embedding endpoint.
pub open spec fn local_embeddings_path() -> Seq<char> {
    seq!['/', 'v', '1', '/', 'e', 'm', 'b', 'e', 'd', 'd', 'i', 'n', 'g', 's']
}

/// The request to the OpenAI interface for `input_text`.
pub open spec fn is_openai_request(
    client: EmbeddingClientView,
    input_text: Seq<char>,
    action: EmbedAction,
) -> bool {
    &&& action matches EmbedAction::RequestOpenAi { model, input }
    &&& model@ == client.embedding_model
    &&& input@ == input_text
}

/// The first step: post to the local server, or ask the OpenAI interface.
pub open spec fn is_first_request(
    client: EmbeddingClientView,
    input_text: Seq<char>,
    action: EmbedAction,
) -> bool {
    if client.is_local {
        &&& action matches EmbedAction::PostLocal { url, request }
        &&& url@ == client.open_ai_url + local_embeddings_path()
        &&& request.input@ == input_text
        &&& request.model@ == client.embedding_model
    } else {
        is_openai_request(client, input_text, action)
    }
}

/// The first step depends on nothing but whether the client is local: a local client
/// posts to its URL followed by `/v1/embeddings`, with the text and the model in the
/// request, whatever the text; any other client asks the OpenAI interface for the text
/// with its model.
pub proof fn law_first_step(client: EmbeddingClientView, input_text: Seq<char>, action: EmbedAction)
    requires
        is_first_request(client, input_text, action),
    ensures
        client.is_local ==> {
            &&& action matches EmbedAction::PostLocal { url, request }
            &&& url@ == client.open_ai_url + seq![
                '/',
                'v',
                '1',
                '/',
                'e',
                'm',
                'b',
                'e',
                'd',
                'd',
                'i',
                'n',
                'g',
                's',
            ]
            &&& request.input@ == input_text
            &&& request.model@ == client.embedding_model
        },
        !client.is_local ==> {
            &&& action matches EmbedAction::RequestOpenAi { model, input }
            &&& model@ == client.embedding_model
            &&& input@ == input_text
        },
{
}

/// A request to the OpenAI interface carries the client's model and the text itself.
pub proof fn law_openai_request(client: EmbeddingClientView, input_text: Seq<char>, action: EmbedAction)
    requires
        is_openai_request(client, input_text, action),
    ensures
        action matches EmbedAction::RequestOpenAi { model, input },
        action matches EmbedAction::RequestOpenAi { model, input } ==> model@ == client.embedding_model
            && input@ == input_text,
{
}

impl EmbeddingClient {
    /// A client for the OpenAI interface at `open_ai_url` with the key `open_ai_key`,
    /// or for a local server at that URL where `is_local` holds; `None` where this
    /// machine cannot set up an HTTP client (no TLS backend or resolver configuration).
    pub fn new(open_ai_key: String, open_ai_url: String, embedding_model: String, is_local: bool) -> (client:
        Option<Self>)
        ensures
            client matches Some(c) ==> c@ == (EmbeddingClientView {
                embedding_model: embedding_model@,
                open_ai_url: open_ai_url@,
                is_local,
            }),
            client matches Some(c) ==> openai_client_key(c.held_client()) == open_ai_key@,
            client matches Some(c) ==> openai_client_base_url(c.held_client()) == open_ai_url@,
    {
        match build_http_client() {
            Some(http_client) => Some(
                Self::with_http_client(http_client, open_ai_key, open_ai_url, embedding_model, is_local),
            ),
            None => None,
        }
    }

    /// The client that `new` builds once an HTTP client is at hand: whatever the key,
    /// URL, model and locality, it holds them, and its OpenAI client sends that key to
    /// that URL.
    pub fn with_http_client(
        http_client: reqwest::Client,
        open_ai_key: String,
        open_ai_url: String,
        embedding_model: String,
        is_local: bool,
    ) -> (client: Self)
        ensures
            client@ == (EmbeddingClientView {
                embedding_model: embedding_model@,
                open_ai_url: open_ai_url@,
                is_local,
            }),
            openai_client_key(client.held_client()) == open_ai_key@,
            openai_client_base_url(client.held_client()) == open_ai_url@,
    {
        let mut openai_client = assemble_openai_client(http_client, open_ai_key);
        set_client_base_url(&mut openai_client, open_ai_url.as_str());
        EmbeddingClient { openai_client, embedding_model, open_ai_url, is_local }
    }

    /// The OpenAI client that this embedding client holds: the one `new` built.
    pub closed spec fn held_client(&self) -> Client {
        self.openai_client
    }

    /// The OpenAI client, for the request that `EmbedAction::RequestOpenAi` asks for.
    pub fn openai_client(&self) -> (client: &Client)
        ensures
            *client == self.held_client(),
    {
        &self.openai_client
    }

    /// The next step of computing the embedding of `input_text`, given what was
    /// learnt last. A local server is asked first where the client is local; its first
    /// item is the answer, and where it has none the OpenAI interface is asked. From
    /// the OpenAI interface the first embedding is the answer if it is a float vector,
    /// and there is none if it is base64.
    pub fn embed_step(&self, input_text: &String, event: &EmbedEvent) -> (action: EmbedAction)
        requires
            event matches EmbedEvent::OpenAiReply(outputs) ==> outputs.len() > 0,
        ensures
            match event {
                EmbedEvent::Start => is_first_request(self@, input_text@, action),
                EmbedEvent::LocalReply(items) => if items.len() > 0 {
                    &&& action matches EmbedAction::Finish(Some(v))
                    &&& v@ == items[0]@
                } else {
                    is_openai_request(self@, input_text@, action)
                },
                EmbedEvent::OpenAiReply(outputs) => match outputs[0] {
                    EmbeddingData::Float(values) => {
                        &&& action matches EmbedAction::Finish(Some(v))
                        &&& v@ == values@
                    },
                    EmbeddingData::Base64(_) => action matches EmbedAction::Finish(None),
                },
            },
    {
        match event {
            EmbedEvent::Start => {
                if self.is_local {
                    let path = "/v1/embeddings";
                    proof {
                        reveal_strlit("/v1/embeddings");
                        assert(path@ =~= local_embeddings_path());
                    }
                    let mut url = self.open_ai_url.clone();
                    url.append(path);
                    let request = LocalRequest {
                        input: input_text.clone(),
                        model: self.embedding_model.clone(),
                    };
                    EmbedAction::PostLocal { url, request }
                } else {
                    self.openai_request(input_text)
                }
            },
            EmbedEvent::LocalReply(items) => {
                if items.len() > 0 {
                    EmbedAction::Finish(Some(copy_values(&items[0])))
                } else {
                    self.openai_request(input_text)
                }
            },
            EmbedEvent::OpenAiReply(outputs) => match &outputs[0] {
                EmbeddingData::Float(values) => EmbedAction::Finish(Some(copy_values(values))),
                EmbeddingData::Base64(_) => EmbedAction::Finish(None),
            },
        }
    }

    fn openai_request(&self, input_text: &String) -> (action: EmbedAction)
        ensures
            is_openai_request(self@, input_text@, action),
    {
        EmbedAction::RequestOpenAi {
            model: self.embedding_model.clone(),
            input: input_text.clone(),
        }
    }
}

fn copy_values(values: &Vec<u64>) -> (copy: Vec<u64>)
    ensures
        copy@ == values@,
{
    let mut copy: Vec<u64> = Vec::new();
    let mut i: usize = 0;
    while i < values.len()
        invariant
            i <= values.len(),
            copy@ == values@.subrange(0, i as int),
        decreases values.len() - i,
    {
        copy.push(values[i]);
        i = i + 1;
        assert(copy@ =~= values@.subrange(0, i as int));
    }
    assert(copy@ =~= values@);
    copy
}

} // verus!
