//! The extension sidecar: calls that the bridge does not know go to it as lines
//! of JSON, and its replies go back to the windows that asked.

use crate::json::{
    bool_member, bool_text, bool_value, bool_at, copy_value, json_get, json_member, json_parsed,
    json_text, member_texts, null_value, number_at, number_member, number_value, object_text,
    object_value, parse_json, quoted, string_at, string_member, string_value, value_text,
};
use crate::reply::{
    lemma_before_by_first, lemma_four_members, lemma_three_members, member, written,
};
use crate::text::{concat2, decimal};
use std::collections::HashMap;
use vstd::prelude::*;
use vstd::string::*;

verus! {

broadcast use vstd::std_specs::hash::group_hash_axioms;

/// The calls that wait for a reply: the window that made each.
pub struct PendingCalls {
    calls: HashMap<u64, u64>,
}

impl View for PendingCalls {
    type V = Map<u64, u64>;

    closed spec fn view(&self) -> Map<u64, u64> {
        self.calls@
    }
}

/// The line that asks the sidecar.
pub open spec fn call_line(id: int, method: Seq<char>, args: Seq<char>) -> Seq<char> {
    object_text(seq![("args"@, args), ("id"@, decimal(id)), ("method"@, quoted(method))]) + "\n"@
}

/// A reply of the sidecar.
#[verifier::ext_equal]
pub ghost struct SidecarReply {
    pub id: u64,
    pub ok: bool,
    /// The text of the result.
    pub result: Seq<char>,
    pub error: Seq<char>,
}

/// What a value that the sidecar sent says: what is missing in it is 0, false,
/// null or empty.
pub open spec fn sidecar_reply(text: Seq<char>) -> SidecarReply {
    SidecarReply {
        id: match number_member(text, "id"@) {
            Some(id) => id,
            None => 0,
        },
        ok: match bool_member(text, "ok"@) {
            Some(ok) => ok,
            None => false,
        },
        result: match json_member(text, "result"@) {
            Some(result) => result,
            None => "null"@,
        },
        error: match string_member(text, "error"@) {
            Some(error) => error,
            None => Seq::empty(),
        },
    }
}

/// What a page is told of a reply of the sidecar.
pub open spec fn sidecar_response(reply: SidecarReply) -> Seq<char> {
    object_text(
        seq![
            ("error"@, quoted(reply.error)),
            ("id"@, decimal(reply.id as int)),
            ("ok"@, bool_text(reply.ok)),
            ("result"@, reply.result),
        ],
    )
}

/// The line that asks the sidecar.
pub(crate) fn write_call(id: u64, method: &str, args: &serde_json::Value) -> (line: String)
    ensures
        line@ == call_line(id as int, method@, value_text(*args)),
{
    let mut members: Vec<(String, serde_json::Value)> = Vec::new();
    members.push(member("args", copy_value(args)));
    members.push(member("id", number_value(id)));
    members.push(member("method", string_value(method)));
    proof {
        reveal_strlit("args");
        reveal_strlit("id");
        reveal_strlit("method");
        lemma_before_by_first("args"@, "id"@);
        lemma_before_by_first("id"@, "method"@);
        assert(member_texts(members@) == seq![
            ("args"@, value_text(*args)),
            ("id"@, decimal(id as int)),
            ("method"@, quoted(method@)),
        ]);
    }
    let text = json_text(&object_value(members));
    concat2(text.as_str(), "\n")
}

/// What a page is told of a reply of the sidecar.
pub fn write_response(id: u64, ok: bool, result: serde_json::Value, error: &str) -> (text: String)
    ensures
        text@ == sidecar_response(
            SidecarReply { id, ok, result: value_text(result), error: error@ },
        ),
{
    let mut members: Vec<(String, serde_json::Value)> = Vec::new();
    members.push(member("error", string_value(error)));
    members.push(member("id", number_value(id)));
    members.push(member("ok", bool_value(ok)));
    members.push(member("result", result));
    proof {
        reveal_strlit("error");
        reveal_strlit("id");
        reveal_strlit("ok");
        reveal_strlit("result");
        lemma_before_by_first("error"@, "id"@);
        lemma_before_by_first("id"@, "ok"@);
        lemma_before_by_first("ok"@, "result"@);
        assert(member_texts(members@) == seq![
            ("error"@, quoted(error@)),
            ("id"@, decimal(id as int)),
            ("ok"@, bool_text(ok)),
            ("result"@, value_text(result)),
        ]);
    }
    json_text(&object_value(members))
}

/// The calls that wait after one more was made.
pub open spec fn after_call(waiting: Map<u64, u64>, id: u64, window: u64) -> Map<u64, u64> {
    waiting.insert(id, window)
}

/// The window that a reply goes to, if one waits for it.
pub open spec fn asker(waiting: Map<u64, u64>, id: u64) -> Option<u64> {
    if waiting.contains_key(id) {
        Some(waiting[id])
    } else {
        None
    }
}

/// The calls that wait after a reply came.
pub open spec fn after_reply(waiting: Map<u64, u64>, id: u64) -> Map<u64, u64> {
    waiting.remove(id)
}

impl PendingCalls {
    /// No call waits.
    pub fn new() -> (r: PendingCalls)
        ensures
            r@ == Map::<u64, u64>::empty(),
    {
        PendingCalls { calls: HashMap::new() }
    }

    /// Notes that a window waits for the reply to a call.
    pub fn called(&mut self, id: u64, window: u64)
        ensures
            final(self)@ == after_call(old(self)@, id, window),
    {
        self.calls.insert(id, window);
    }

    /// The window that waits for a reply; it waits no longer.
    pub fn replied(&mut self, id: u64) -> (window: Option<u64>)
        ensures
            window == asker(old(self)@, id),
            final(self)@ == after_reply(old(self)@, id),
    {
        self.calls.remove(&id)
    }

    /// Takes one line of the sidecar. A line that is no JSON is passed over. A
    /// reply that a window waits for goes to that window.
    pub fn take_line(&mut self, line: &str) -> (r: Option<(u64, String)>)
        ensures
            match json_parsed(line@) {
                Ok(text) => {
                    let reply = sidecar_reply(text);
                    &&& final(self)@ == after_reply(old(self)@, reply.id)
                    &&& match asker(old(self)@, reply.id) {
                        Some(window) => r matches Some((to, response)) && to == window
                            && response@ == sidecar_response(reply),
                        None => r is None,
                    }
                },
                Err(_) => final(self)@ == old(self)@ && r is None,
            },
    {
        match parse_json(line) {
            Ok(value) => {
                let id: u64 = match number_at(&value, "id") {
                    Some(id) => id,
                    None => 0,
                };
                let ok: bool = match bool_at(&value, "ok") {
                    Some(ok) => ok,
                    None => false,
                };
                let result = match json_get(&value, "result") {
                    Some(result) => copy_value(result),
                    None => null_value(),
                };
                let error = match string_at(&value, "error") {
                    Some(error) => error,
                    None => String::new(),
                };
                let ghost reply = sidecar_reply(value_text(value));
                assert(reply == (SidecarReply {
                    id,
                    ok,
                    result: value_text(result),
                    error: error@,
                }));
                match self.replied(id) {
                    Some(window) => {
                        let response = write_response(id, ok, result, error.as_str());
                        Some((window, response))
                    },
                    None => None,
                }
            },
            Err(_) => None,
        }
    }
}

/// A reply goes to the window that made the call, once, and the other calls go
/// on waiting.
pub proof fn law_reply_reaches_the_asker_once(waiting: Map<u64, u64>, id: u64, window: u64)
    ensures
        asker(after_call(waiting, id, window), id) == Some(window),
        asker(after_reply(after_call(waiting, id, window), id), id) is None,
        forall|other: u64|
            other != id ==> #[trigger] asker(
                after_reply(after_call(waiting, id, window), id),
                other,
            ) == asker(waiting, other),
{
}

/// The sidecar is asked by one line of JSON with the arguments, the number of the
/// call and the method.
pub proof fn law_calls_as_written(id: int, method: Seq<char>, args: Seq<char>)
    ensures
        call_line(id, method, args) == seq!['{'] + written("args"@, args) + seq![','] + written(
            "id"@,
            decimal(id),
        ) + seq![','] + written("method"@, quoted(method)) + seq!['}'] + seq!['\n'],
{
    reveal_strlit("\n");
    assert("\n"@ =~= seq!['\n']);
    lemma_three_members(
        seq![("args"@, args), ("id"@, decimal(id)), ("method"@, quoted(method))],
    );
}

/// A reply of the sidecar says what its members say, each by itself. One that is
/// missing, or of another kind, counts as 0, false, null or empty.
pub proof fn law_sidecar_replies_say_what_they_hold(text: Seq<char>)
    ensures
        number_member(text, "id"@) matches Some(id) ==> sidecar_reply(text).id == id,
        number_member(text, "id"@) is None ==> sidecar_reply(text).id == 0,
        bool_member(text, "ok"@) matches Some(ok) ==> sidecar_reply(text).ok == ok,
        bool_member(text, "ok"@) is None ==> !sidecar_reply(text).ok,
        json_member(text, "result"@) matches Some(result) ==> sidecar_reply(text).result == result,
        json_member(text, "result"@) is None ==> sidecar_reply(text).result == "null"@,
        string_member(text, "error"@) matches Some(error) ==> sidecar_reply(text).error == error,
        string_member(text, "error"@) is None ==> sidecar_reply(text).error.len() == 0,
{
}

/// A page is told of a reply of the sidecar with all four of its parts.
pub proof fn law_sidecar_responses_as_written(reply: SidecarReply)
    ensures
        reply.ok ==> sidecar_response(reply) == seq!['{'] + written("error"@, quoted(reply.error))
            + seq![','] + written("id"@, decimal(reply.id as int)) + seq![','] + written(
            "ok"@,
            "true"@,
        ) + seq![','] + written("result"@, reply.result) + seq!['}'],
        !reply.ok ==> sidecar_response(reply) == seq!['{'] + written("error"@, quoted(reply.error))
            + seq![','] + written("id"@, decimal(reply.id as int)) + seq![','] + written(
            "ok"@,
            "false"@,
        ) + seq![','] + written("result"@, reply.result) + seq!['}'],
{
    lemma_four_members(
        seq![
            ("error"@, quoted(reply.error)),
            ("id"@, decimal(reply.id as int)),
            ("ok"@, bool_text(reply.ok)),
            ("result"@, reply.result),
        ],
    );
}

/// A call waits for its window and no other, until its reply has come; a later call
/// under the same number takes its place.
pub proof fn law_calls_wait_for_their_window(
    waiting: Map<u64, u64>,
    id: u64,
    window: u64,
    other: u64,
)
    ensures
        asker(after_call(waiting, id, window), id) == Some(window),
        other != id ==> asker(after_call(waiting, id, window), other) == asker(waiting, other),
        asker(after_reply(waiting, id), id) is None,
        other != id ==> asker(after_reply(waiting, id), other) == asker(waiting, other),
        waiting.contains_pair(other, window) ==> asker(waiting, other) == Some(window),
        asker(Map::empty(), other) is None,
{
}

} // verus!
