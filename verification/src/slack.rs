//! What is said to Slack and what its replies mean.
//!
//! Sending a request and receiving the reply's text is the caller's part.
//! Here are the addresses and headers of the two requests, and the reading
//! of a reply: which replies stand for success, which for which error.

use vstd::prelude::*;
use vstd::string::StringExecFns;

verus! {

/// Why a call to Slack failed.
#[derive(Debug)]
pub enum SlackError {
    /// Slack answered the request with this error.
    Request(String),
    /// The body of the reply could not be read; the text says why.
    Decode(String),
    /// The request could not be sent; the text says why.
    Send(String),
    /// The reply was not what a reply should be.
    Other(&'static str),
}

/// Names a message that was sent: the handle for asking about it later.
#[derive(Clone, Debug, PartialEq, Eq)]
pub struct MessageIdentifier {
    channel: String,
    ts: String,
}

/// One kind of reaction to a message and who gave it.
#[derive(Clone, Debug, PartialEq, Eq)]
pub struct Reaction {
    name: String,
    users: Vec<String>,
}

/// The parts of a reply that decide what it means. Each holds what the
/// reply has under that name, if it is of the right kind. `reactions` are
/// the items under `message.reactions`, each one as JSON text.
pub struct RawReply {
    pub ok: Option<bool>,
    pub channel: Option<String>,
    pub ts: Option<String>,
    pub error: Option<String>,
    pub reactions: Option<Vec<String>>,
}

/// The names under which a reply holds its parts.
pub struct ReplyKeys {
    pub ok: &'static str,
    pub channel: &'static str,
    pub ts: &'static str,
    pub error: &'static str,
    pub message: &'static str,
    pub reactions: &'static str,
}

/// [`ReplyKeys`] as plain text.
pub struct KeyTexts {
    pub ok: Seq<char>,
    pub channel: Seq<char>,
    pub ts: Seq<char>,
    pub error: Seq<char>,
    pub message: Seq<char>,
    pub reactions: Seq<char>,
}

/// A [`SlackError`] as plain text.
pub enum Failure {
    Request(Seq<char>),
    Decode(Seq<char>),
    Send(Seq<char>),
    Other(Seq<char>),
}

/// A [`MessageIdentifier`] as plain text.
pub struct MessageName {
    pub channel: Seq<char>,
    pub ts: Seq<char>,
}

/// A [`RawReply`] as plain text.
pub struct ReplyParts {
    pub ok: Option<bool>,
    pub channel: Option<Seq<char>>,
    pub ts: Option<Seq<char>>,
    pub error: Option<Seq<char>>,
    pub reactions: Option<Seq<Seq<char>>>,
}

/// The text of a string that may be missing.
pub open spec fn text_of(s: Option<String>) -> Option<Seq<char>> {
    match s {
        Some(s) => Some(s@),
        None => None,
    }
}

/// The texts of a list of strings.
pub open spec fn texts_of(list: Seq<String>) -> Seq<Seq<char>> {
    Seq::new(list.len(), |i: int| list[i]@)
}

impl View for SlackError {
    type V = Failure;

    open spec fn view(&self) -> Failure {
        match *self {
            SlackError::Request(s) => Failure::Request(s@),
            SlackError::Decode(s) => Failure::Decode(s@),
            SlackError::Send(s) => Failure::Send(s@),
            SlackError::Other(s) => Failure::Other(s@),
        }
    }
}

impl View for MessageIdentifier {
    type V = MessageName;

    closed spec fn view(&self) -> MessageName {
        MessageName { channel: self.channel@, ts: self.ts@ }
    }
}

impl View for ReplyKeys {
    type V = KeyTexts;

    open spec fn view(&self) -> KeyTexts {
        KeyTexts {
            ok: self.ok@,
            channel: self.channel@,
            ts: self.ts@,
            error: self.error@,
            message: self.message@,
            reactions: self.reactions@,
        }
    }
}

impl View for RawReply {
    type V = ReplyParts;

    open spec fn view(&self) -> ReplyParts {
        ReplyParts {
            ok: self.ok,
            channel: text_of(self.channel),
            ts: text_of(self.ts),
            error: text_of(self.error),
            reactions: match self.reactions {
                Some(items) => Some(texts_of(items@)),
                None => None,
            },
        }
    }
}

impl MessageIdentifier {
    /// The name of the message that has timestamp `ts` in `channel`.
    pub fn new(channel: String, ts: String) -> (id: MessageIdentifier)
        ensures
            id@ == (MessageName { channel: channel@, ts: ts@ }),
    {
        MessageIdentifier { channel, ts }
    }

    /// The channel that the message is in.
    pub fn channel(&self) -> (channel: &str)
        ensures
            channel@ == self@.channel,
    {
        self.channel.as_str()
    }

    /// The timestamp that Slack gave the message.
    pub fn ts(&self) -> (ts: &str)
        ensures
            ts@ == self@.ts,
    {
        self.ts.as_str()
    }
}

impl Reaction {
    /// The name of the reaction.
    pub closed spec fn name_text(&self) -> Seq<char> {
        self.name@
    }

    /// The users who reacted.
    pub closed spec fn user_texts(&self) -> Seq<Seq<char>> {
        texts_of(self.users@)
    }

    /// The reaction `name`, given by `users`.
    pub fn new(name: String, users: Vec<String>) -> (reaction: Reaction)
        ensures
            reaction.name_text() == name@,
            reaction.user_texts() == texts_of(users@),
    {
        Reaction { name, users }
    }

    /// The name of the reaction.
    pub fn name(&self) -> (name: &str)
        ensures
            name@ == self.name_text(),
    {
        self.name.as_str()
    }

    /// The number of users who reacted.
    pub fn user_count(&self) -> (n: usize)
        ensures
            n == self.user_texts().len(),
    {
        self.users.len()
    }

    /// The `i`-th user who reacted.
    pub fn user(&self, i: usize) -> (user: Option<&str>)
        ensures
            match user {
                Some(u) => i < self.user_texts().len() && u@ == self.user_texts()[i as int],
                None => i >= self.user_texts().len(),
            },
    {
        if i < self.users.len() {
            Some(self.users[i].as_str())
        } else {
            None
        }
    }
}

// ---------------------------------------------------------------------------
// Requests
// ---------------------------------------------------------------------------

/// The address that messages are posted to.
pub fn post_message_url() -> (url: &'static str)
    ensures
        url@ == "https://slack.com/api/chat.postMessage"@,
{
    "https://slack.com/api/chat.postMessage"
}

/// The address at which the reactions to a message are asked for.
pub open spec fn reactions_url_text(id: MessageName) -> Seq<char> {
    "https://slack.com/api/reactions.get?channel="@ + id.channel + "&timestamp="@ + id.ts
}

/// The address at which the reactions to the message `id` are asked for.
pub fn reactions_url(id: &MessageIdentifier) -> (url: String)
    ensures
        url@ == reactions_url_text(id@),
{
    let mut url = String::from_str("https://slack.com/api/reactions.get?channel=");
    url.append(id.channel());
    url.append("&timestamp=");
    url.append(id.ts());
    url
}

/// The value of the `Authorization` header for the bot token `token`.
pub fn bearer(token: &str) -> (header: String)
    ensures
        header@ == "Bearer "@ + token@,
{
    let mut header = String::from_str("Bearer ");
    header.append(token);
    header
}

// ---------------------------------------------------------------------------
// Replies
// ---------------------------------------------------------------------------

/// What the reply to a posted message means. `None` stands for a reply that
/// is broken: it claims success and names no message, or claims failure and
/// names no error.
pub open spec fn send_meaning(reply: ReplyParts) -> Option<Result<MessageName, Failure>> {
    match reply.ok {
        Some(true) => match (reply.channel, reply.ts) {
            (Some(channel), Some(ts)) => Some(Ok(MessageName { channel, ts })),
            _ => None,
        },
        Some(false) => match reply.error {
            Some(error) => Some(Err(Failure::Request(error))),
            None => None,
        },
        None => Some(Err(Failure::Other("response without status code"@))),
    }
}

/// What the reply to a question about reactions means: the reactions as
/// JSON texts, still to be decoded, or the error. `None` stands for a reply
/// that is broken: it claims failure and names no error.
pub open spec fn reactions_meaning(reply: ReplyParts) -> Option<Result<Seq<Seq<char>>, Failure>> {
    match reply.ok {
        Some(true) => match reply.reactions {
            Some(items) => Some(Ok(items)),
            None => Some(Err(Failure::Other("no reactions"@))),
        },
        Some(false) => match reply.error {
            Some(error) => Some(Err(Failure::Request(error))),
            None => None,
        },
        None => Some(Err(Failure::Other("response without status code"@))),
    }
}

/// The plain text of what reading a send reply gave.
pub open spec fn sent_view(out: Option<Result<MessageIdentifier, SlackError>>) -> Option<
    Result<MessageName, Failure>,
> {
    match out {
        Some(Ok(id)) => Some(Ok(id@)),
        Some(Err(e)) => Some(Err(e@)),
        None => None,
    }
}

/// The plain text of what reading a reactions reply gave.
pub open spec fn items_view(out: Option<Result<Vec<String>, SlackError>>) -> Option<
    Result<Seq<Seq<char>>, Failure>,
> {
    match out {
        Some(Ok(items)) => Some(Ok(texts_of(items@))),
        Some(Err(e)) => Some(Err(e@)),
        None => None,
    }
}

/// Reads the reply to a posted message: see [`send_meaning`].
pub fn interpret_send(reply: RawReply) -> (out: Option<Result<MessageIdentifier, SlackError>>)
    ensures
        sent_view(out) == send_meaning(reply@),
{
    match reply.ok {
        Some(true) => match (reply.channel, reply.ts) {
            (Some(channel), Some(ts)) => Some(Ok(MessageIdentifier::new(channel, ts))),
            _ => None,
        },
        Some(false) => match reply.error {
            Some(error) => Some(Err(SlackError::Request(error))),
            None => None,
        },
        None => Some(Err(SlackError::Other("response without status code"))),
    }
}

/// Reads the reply to a question about reactions: see
/// [`reactions_meaning`].
pub fn interpret_reactions(reply: RawReply) -> (out: Option<Result<Vec<String>, SlackError>>)
    ensures
        items_view(out) == reactions_meaning(reply@),
{
    match reply.ok {
        Some(true) => match reply.reactions {
            Some(items) => Some(Ok(items)),
            None => Some(Err(SlackError::Other("no reactions"))),
        },
        Some(false) => match reply.error {
            Some(error) => Some(Err(SlackError::Request(error))),
            None => None,
        },
        None => Some(Err(SlackError::Other("response without status code"))),
    }
}

/// The names that Slack gives the parts of its replies.
pub open spec fn slack_key_texts() -> KeyTexts {
    KeyTexts {
        ok: "ok"@,
        channel: "channel"@,
        ts: "ts"@,
        error: "error"@,
        message: "message"@,
        reactions: "reactions"@,
    }
}

/// The names that Slack gives the parts of its replies.
pub fn slack_keys() -> (keys: ReplyKeys)
    ensures
        keys@ == slack_key_texts(),
{
    ReplyKeys {
        ok: "ok",
        channel: "channel",
        ts: "ts",
        error: "error",
        message: "message",
        reactions: "reactions",
    }
}

/// What the text of a reply to a posted message means; `None` where the
/// text is no JSON or the reply is broken.
pub fn decode_send_reply(text: &str) -> (out: Option<Result<MessageIdentifier, SlackError>>)
    ensures
        sent_view(out) == match json_reply(text@, slack_key_texts()) {
            Some(parts) => send_meaning(parts),
            None => None,
        },
{
    match parse_reply(text, &slack_keys()) {
        Some(reply) => interpret_send(reply),
        None => None,
    }
}

/// What the text of a reply to a question about reactions means; `None`
/// where the text is no JSON or the reply is broken.
pub fn decode_reactions_reply(text: &str) -> (out: Option<Result<Vec<String>, SlackError>>)
    ensures
        items_view(out) == match json_reply(text@, slack_key_texts()) {
            Some(parts) => reactions_meaning(parts),
            None => None,
        },
{
    match parse_reply(text, &slack_keys()) {
        Some(reply) => interpret_reactions(reply),
        None => None,
    }
}

/// The reactions, where every item could be decoded.
pub open spec fn all_decoded(items: Seq<Option<Reaction>>) -> bool {
    forall|i: int| 0 <= i < items.len() ==> items[i] is Some
}

/// Gathers reactions as they were decoded item by item, `None` standing for
/// an item that could not be decoded. One such item spoils the whole reply;
/// otherwise the reactions are returned as they came.
pub fn gather_reactions(items: Vec<Option<Reaction>>) -> (out: Result<Vec<Reaction>, SlackError>)
    ensures
        match out {
            Ok(reactions) => {
                &&& all_decoded(items@)
                &&& reactions@.len() == items@.len()
                &&& forall|i: int|
                    0 <= i < items@.len() ==> items@[i] == Some(#[trigger] reactions@[i])
            },
            Err(e) => !all_decoded(items@) && e@ == Failure::Other("reaction parsing error!"@),
        },
{
    let ghost all = items@;
    let total = items.len();
    let mut rest = items;
    let mut reactions: Vec<Reaction> = Vec::new();
    let mut taken: usize = 0;
    while taken < total
        invariant
            taken <= total,
            all == items@,
            total == all.len(),
            rest@ == all.skip(taken as int),
            reactions@.len() == taken,
            forall|i: int| 0 <= i < taken ==> all[i] == Some(#[trigger] reactions@[i]),
        decreases total - taken,
    {
        let item = rest.remove(0);
        proof {
            assert(item == all[taken as int]);
            assert(rest@ =~= all.skip(taken + 1));
        }
        match item {
            Some(reaction) => {
                reactions.push(reaction);
            },
            None => {
                assert(!(all[taken as int] is Some));
                return Err(SlackError::Other("reaction parsing error!"));
            },
        }
        taken += 1;
    }
    assert forall|i: int| 0 <= i < all.len() implies all[i] is Some by {
        assert(all[i] == Some(reactions@[i]));
    }
    Ok(reactions)
}

// ---------------------------------------------------------------------------
// JSON
// ---------------------------------------------------------------------------

/// The parts that `text`, read as JSON by `serde_json`, holds under the
/// names `keys`; `None` where `text` is no JSON.
pub uninterp spec fn json_reply(text: Seq<char>, keys: KeyTexts) -> Option<ReplyParts>;

/// Parses `text` with `serde_json::Value::from_str` and picks the parts out
/// of the value: each by its name, with `as_bool` or `as_str`; the
/// reactions, under the message, with `as_array`, each item written back to
/// text with `to_string`.
///
/// Trusted: the result depends on the text and the names alone. What it is
/// for a given text is not stated.
#[verifier::external_body]
fn parse_reply(text: &str, keys: &ReplyKeys) -> (reply: Option<RawReply>)
    ensures
        match reply {
            Some(raw) => json_reply(text@, keys@) == Some(raw@),
            None => json_reply(text@, keys@) is None,
        },
{
    let value: serde_json::Value = text.parse().ok()?;
    Some(RawReply {
        ok: value[keys.ok].as_bool(),
        channel: value[keys.channel].as_str().map(str::to_string),
        ts: value[keys.ts].as_str().map(str::to_string),
        error: value[keys.error].as_str().map(str::to_string),
        reactions: value[keys.message][keys.reactions].as_array().map(|items| {
            items.iter().map(|item| item.to_string()).collect()
        }),
    })
}

} // verus!
