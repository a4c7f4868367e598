use vstd::prelude::*;
use vstd::string::StrSliceExecFns;
use vstd::string::StringExecFns;

use crate::limiter::TokenLimiter;

verus! {

/// Which of the two judgements a request asks for.
#[derive(Clone, Copy, PartialEq, Eq, Structural, Debug)]
pub enum ProofKind {
    /// Is the statement factual on its own?
    Fact,
    /// Do the premises collectively imply the conclusion?
    Implication,
}

/// The boolean outcome of a judging-service call.
#[derive(Clone, Copy, PartialEq, Eq, Structural, Debug)]
pub enum Verdict {
    True,
    False,
}

/// Everything a judging call can fail with. All variants are recoverable at
/// the session level: they prevent a proof-state transition and are
/// rendered as a failed comment, never closing the session.
#[derive(Debug)]
pub enum AiError {
    /// The service answered with an empty choice list.
    NoChoices,
    /// The answer started with neither verdict token.
    WrongFormat,
    /// The token bucket was empty; no request was sent.
    Ratelimited,
    /// The transport failed; carries the transport's own description.
    RewestError(String),
}

/// Who speaks in one chat message of a judging request.
#[derive(Clone, Copy, PartialEq, Eq, Structural, Debug)]
pub enum Role {
    System,
    User,
}

/// One chat-style message of a judging request or answer.
#[derive(Debug)]
pub struct Message {
    pub role: Role,
    pub content: String,
}

/// The requested shape of the service's answer.
#[derive(Clone, Copy, PartialEq, Eq, Structural, Debug)]
pub enum ResponseFormat {
    JsonObject,
    Text,
}

/// The body of one judging-service request: a model identifier and an
/// ordered list of chat messages.
#[derive(Debug)]
pub struct OpenAiRequest {
    pub model: String,
    pub response_format: Option<ResponseFormat>,
    pub messages: Vec<Message>,
}

/// One answer candidate of the judging service.
#[derive(Debug)]
pub struct Choice {
    pub message: Message,
}

/// The body of one judging-service answer; only the first choice is read.
#[derive(Debug)]
pub struct OpenAiResponse {
    pub choices: Vec<Choice>,
}

impl Message {
    pub fn new(role: Role, msg: String) -> (r: Self)
        ensures
            r.role == role,
            r.content == msg,
    {
        Message { role, content: msg }
    }

    pub fn user(msg: String) -> (r: Self)
        ensures
            r.role == Role::User,
            r.content == msg,
    {
        Message::new(Role::User, msg)
    }

    pub fn sys(msg: String) -> (r: Self)
        ensures
            r.role == Role::System,
            r.content == msg,
    {
        Message::new(Role::System, msg)
    }
}

impl OpenAiRequest {
    pub fn new(model: String) -> (r: Self)
        ensures
            r.model == model,
            r.response_format is None,
            r.messages@ == Seq::<Message>::empty(),
    {
        OpenAiRequest { model, response_format: None, messages: Vec::new() }
    }

    pub fn append_message(self, role: Role, msg: String) -> (r: Self)
        ensures
            r.model == self.model,
            r.response_format == self.response_format,
            r.messages@ == self.messages@.push(Message { role, content: msg }),
    {
        let mut r = self;
        r.messages.push(Message { role, content: msg });
        r
    }

    pub fn response_format(self, fmt: Option<ResponseFormat>) -> (r: Self)
        ensures
            r.model == self.model,
            r.response_format == fmt,
            r.messages@ == self.messages@,
    {
        OpenAiRequest { response_format: fmt, ..self }
    }
}

/// `p` is a prefix of `s`.
pub open spec fn has_prefix(s: Seq<char>, p: Seq<char>) -> bool {
    p.len() <= s.len() && s.subrange(0, p.len() as int) == p
}

/// Character-by-character prefix test.
fn str_starts_with(s: &str, p: &str) -> (r: bool)
    ensures
        r == has_prefix(s@, p@),
{
    let pl = p.unicode_len();
    if pl > s.unicode_len() {
        return false;
    }
    let mut i: usize = 0;
    while i < pl
        invariant
            i <= pl,
            pl == p@.len(),
            pl <= s@.len(),
            forall|k: int| 0 <= k < i ==> s@[k] == p@[k],
        decreases pl - i,
    {
        if s.get_char(i) != p.get_char(i) {
            proof {
                assert(s@.subrange(0, p@.len() as int)[i as int] == s@[i as int]);
            }
            return false;
        }
        i = i + 1;
    }
    proof {
        assert(s@.subrange(0, p@.len() as int) =~= p@);
    }
    true
}

/// What the service's answer text means: a leading `[TRUE]` token is an
/// accepting verdict, a leading `[FALSE]` token a rejecting one, and
/// anything else is a format failure.
pub open spec fn spec_verdict(content: Seq<char>) -> Result<Verdict, AiError> {
    if has_prefix(content, "[TRUE]"@) {
        Ok(Verdict::True)
    } else if has_prefix(content, "[FALSE]"@) {
        Ok(Verdict::False)
    } else {
        Err(AiError::WrongFormat)
    }
}

/// Interpret the free text of a judging answer into a verdict.
pub fn interprete_response(input: &str) -> (r: Result<Verdict, AiError>)
    ensures
        r == spec_verdict(input@),
{
    if str_starts_with(input, "[TRUE]") {
        Ok(Verdict::True)
    } else if str_starts_with(input, "[FALSE]") {
        Ok(Verdict::False)
    } else {
        Err(AiError::WrongFormat)
    }
}

/// What a whole judging answer means: an empty choice list is a failure,
/// and otherwise the first choice's text decides.
pub open spec fn spec_response_verdict(resp: OpenAiResponse) -> Result<Verdict, AiError> {
    if resp.choices@.len() == 0 {
        Err(AiError::NoChoices)
    } else {
        spec_verdict(resp.choices@[0].message.content@)
    }
}

/// Interpret a judging-service answer: reject an empty choice list, then
/// read the first choice's text.
pub fn interpret_api_response(resp: &OpenAiResponse) -> (r: Result<Verdict, AiError>)
    ensures
        r == spec_response_verdict(*resp),
{
    if resp.choices.len() == 0 {
        return Err(AiError::NoChoices);
    }
    interprete_response(resp.choices[0].message.content.as_str())
}

/// The description each failure is rendered with for clients.
pub open spec fn error_text(e: AiError) -> Seq<char> {
    match e {
        AiError::NoChoices => "The AI gave no results."@,
        AiError::WrongFormat => "The AI returned in the wrong format."@,
        AiError::Ratelimited => "The AI is reatelimited."@,
        AiError::RewestError(s) => "Request Error: "@ + s@,
    }
}

impl AiError {
    /// A human-readable description, as delivered to clients.
    pub fn message(&self) -> (r: String)
        ensures
            r@ == error_text(*self),
    {
        match self {
            AiError::NoChoices => String::from_str("The AI gave no results."),
            AiError::WrongFormat => String::from_str("The AI returned in the wrong format."),
            AiError::Ratelimited => String::from_str("The AI is reatelimited."),
            AiError::RewestError(e) => {
                String::from_str("Request Error: ").concat(e.as_str())
            },
        }
    }
}

/// Render one statement as a list bullet for an implication request.
fn bullet(msg: &str) -> (r: String)
    ensures
        r@ == "- "@ + msg@,
{
    String::from_str("- ").concat(msg)
}

/// The client of an OpenAI-compatible judging endpoint. It assembles
/// request bodies and arbitrates the token bucket; the transport that
/// carries a body to the service and brings the answer back lives outside
/// the core. The prompt preamble and the implication separator are
/// immutable template data supplied at construction.
pub struct OpenAi {
    pub model: String,
    pub token: String,
    pub endpoint: String,
    pub limiter: TokenLimiter,
    pub system_message: String,
    pub implication_mid: String,
}

impl OpenAi {
    /// The non-bucket configuration is never changed by a call.
    pub open spec fn same_config(self, other: OpenAi) -> bool {
        &&& other.model == self.model
        &&& other.token == self.token
        &&& other.endpoint == self.endpoint
        &&& other.system_message == self.system_message
        &&& other.implication_mid == self.implication_mid
    }

    pub fn new(
        model: String,
        token: String,
        endpoint: String,
        limiter: TokenLimiter,
        system_message: String,
        implication_mid: String,
    ) -> (r: Self)
        ensures
            r.model == model,
            r.token == token,
            r.endpoint == endpoint,
            r.limiter == limiter,
            r.system_message == system_message,
            r.implication_mid == implication_mid,
    {
        OpenAi { model, token, endpoint, limiter, system_message, implication_mid }
    }

    /// True iff the bucket holds no token at `now_ms`.
    pub fn is_rate_limited(&self, now_ms: u64) -> (r: bool)
        requires
            self.limiter.wf(),
            now_ms >= self.limiter.last_request,
        ensures
            r == (self.limiter.available(now_ms as int) == 0),
    {
        self.limiter.is_limited(now_ms)
    }

    /// Consult the bucket, then fold the messages into a request body.
    /// Fails with `Ratelimited`, taking no token and sending nothing, iff
    /// no token is available; on success one token is consumed.
    fn request(&mut self, now_ms: u64, msgs: Vec<Message>) -> (r: Result<OpenAiRequest, AiError>)
        requires
            old(self).limiter.wf(),
            now_ms >= old(self).limiter.last_request,
        ensures
            final(self).limiter.wf(),
            old(self).same_config(*final(self)),
            r is Ok <==> old(self).limiter.available(now_ms as int) >= 1,
            r is Err ==> (r->Err_0 matches AiError::Ratelimited)
                && final(self).limiter == old(self).limiter,
            r is Ok ==> {
                &&& final(self).limiter.tokens
                    == old(self).limiter.available(now_ms as int) - 1
                &&& final(self).limiter.last_request == now_ms
                &&& r->Ok_0.model == old(self).model
                &&& r->Ok_0.response_format is None
                &&& r->Ok_0.messages@ == msgs@
            },
    {
        if !self.limiter.consume(now_ms) {
            return Err(AiError::Ratelimited);
        }
        let mut request = OpenAiRequest::new(self.model.clone());
        let mut i: usize = 0;
        let mut rest = msgs;
        let ghost all = rest@;
        let n = rest.len();
        proof {
            assert(all.subrange(0, 0) =~= Seq::<Message>::empty());
        }
        let mut out: Vec<Message> = Vec::new();
        while i < n
            invariant
                i <= n,
                n == rest@.len(),
                rest@ == all,
                request.model == old(self).model,
                request.response_format is None,
                request.messages@ == all.subrange(0, i as int),
            decreases n - i,
        {
            let m = {
                let mr = &rest[i];
                Message { role: mr.role, content: mr.content.clone() }
            };
            proof {
                assert(m == all[i as int]);
                assert(all.subrange(0, i + 1)
                    =~= all.subrange(0, i as int).push(all[i as int]));
            }
            request = request.append_message(m.role, m.content);
            i = i + 1;
        }
        proof {
            assert(all.subrange(0, n as int) =~= all);
        }
        Ok(request)
    }

    /// Assemble a fact-check request: the fixed system preamble, then the
    /// statement itself. Fails with `Ratelimited` iff no token is
    /// available; no request body is produced then.
    pub fn check_fact(&mut self, now_ms: u64, input: String) -> (r: Result<OpenAiRequest, AiError>)
        requires
            old(self).limiter.wf(),
            now_ms >= old(self).limiter.last_request,
        ensures
            final(self).limiter.wf(),
            old(self).same_config(*final(self)),
            r is Ok <==> old(self).limiter.available(now_ms as int) >= 1,
            r is Err ==> (r->Err_0 matches AiError::Ratelimited)
                && final(self).limiter == old(self).limiter,
            r is Ok ==> {
                &&& final(self).limiter.tokens
                    == old(self).limiter.available(now_ms as int) - 1
                &&& final(self).limiter.last_request == now_ms
                &&& r->Ok_0.model == old(self).model
                &&& r->Ok_0.response_format is None
                &&& r->Ok_0.messages@.len() == 2
                &&& r->Ok_0.messages@[0].role == Role::System
                &&& r->Ok_0.messages@[0].content@ == old(self).system_message@
                &&& r->Ok_0.messages@[1].role == Role::User
                &&& r->Ok_0.messages@[1].content@ == input@
            },
    {
        let mut msgs: Vec<Message> = Vec::new();
        msgs.push(Message::sys(self.system_message.clone()));
        msgs.push(Message::user(input));
        self.request(now_ms, msgs)
    }

    /// Assemble an implication-check request: the fixed system preamble,
    /// each premise as a bullet, the fixed separator, and the conclusion
    /// as a bullet. Fails with `Ratelimited` iff no token is available.
    pub fn check_implication(
        &mut self,
        now_ms: u64,
        premises: Vec<String>,
        conclusion: String,
    ) -> (r: Result<OpenAiRequest, AiError>)
        requires
            old(self).limiter.wf(),
            now_ms >= old(self).limiter.last_request,
        ensures
            final(self).limiter.wf(),
            old(self).same_config(*final(self)),
            r is Ok <==> old(self).limiter.available(now_ms as int) >= 1,
            r is Err ==> (r->Err_0 matches AiError::Ratelimited)
                && final(self).limiter == old(self).limiter,
            r is Ok ==> {
                &&& final(self).limiter.tokens
                    == old(self).limiter.available(now_ms as int) - 1
                &&& final(self).limiter.last_request == now_ms
                &&& r->Ok_0.model == old(self).model
                &&& r->Ok_0.response_format is None
                &&& r->Ok_0.messages@.len() == premises@.len() + 3
                &&& r->Ok_0.messages@[0].role == Role::System
                &&& r->Ok_0.messages@[0].content@ == old(self).system_message@
                &&& (forall|i: int| 0 <= i < premises@.len() ==> {
                    &&& (#[trigger] r->Ok_0.messages@[i + 1]).role == Role::User
                    &&& r->Ok_0.messages@[i + 1].content@ == "- "@ + premises@[i]@
                })
                &&& r->Ok_0.messages@[premises@.len() as int + 1].role == Role::User
                &&& r->Ok_0.messages@[premises@.len() as int + 1].content@
                    == old(self).implication_mid@
                &&& r->Ok_0.messages@[premises@.len() as int + 2].role == Role::User
                &&& r->Ok_0.messages@[premises@.len() as int + 2].content@
                    == "- "@ + conclusion@
            },
    {
        let mut msgs: Vec<Message> = Vec::new();
        msgs.push(Message::sys(self.system_message.clone()));
        let n = premises.len();
        let mut i: usize = 0;
        while i < n
            invariant
                i <= n,
                n == premises@.len(),
                msgs@.len() == i + 1,
                msgs@[0].role == Role::System,
                msgs@[0].content@ == self.system_message@,
                self == old(self),
                forall|k: int| 0 <= k < i ==> {
                    &&& (#[trigger] msgs@[k + 1]).role == Role::User
                    &&& msgs@[k + 1].content@ == "- "@ + premises@[k]@
                },
            decreases n - i,
        {
            let b = bullet(premises[i].as_str());
            msgs.push(Message::user(b));
            i = i + 1;
        }
        msgs.push(Message::user(self.implication_mid.clone()));
        msgs.push(Message::user(bullet(conclusion.as_str())));
        self.request(now_ms, msgs)
    }
}

} // verus!
