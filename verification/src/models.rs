//! The plain data carried through the gateway: a single chat message, the
//! conversation wrapper received from the caller, and the static
//! configuration of the default upstream endpoint.

use vstd::prelude::*;

verus! {

/// One turn of a conversation: a role tag ("system", "user", "assistant" or
/// any other label the caller sends) and its text content.
pub struct Message {
    pub role: String,
    pub content: String,
}

impl Message {
    /// The pair of character sequences this message stands for.
    pub open spec fn view_pair(self) -> (Seq<char>, Seq<char>) {
        (self.role@, self.content@)
    }

    pub fn new(role: String, content: String) -> (r: Message)
        ensures
            r.role@ == role@,
            r.content@ == content@,
    {
        Message { role, content }
    }

    pub fn clone_message(&self) -> (r: Message)
        ensures
            r.view_pair() == self.view_pair(),
    {
        Message { role: clone_string(&self.role), content: clone_string(&self.content) }
    }
}

/// A whole conversation as received from the caller, oldest message first.
pub struct Prompt {
    pub messages: Vec<Message>,
}

/// Static configuration of the default chat-completions upstream.
pub struct Config {
    pub openai_url: String,
    pub openai_key: String,
    pub openai_subscription_url: Option<String>,
}

/// Connection settings for the shared counter store used by the rate gate.
pub struct RedisSettings {
    pub redis_host: String,
    pub redis_port: u16,
    pub redis_password: String,
}

pub fn clone_string(s: &String) -> (r: String)
    ensures
        r@ == s@,
{
    s.clone()
}

} // verus!
