//! Transaction traces: where they come from, how they are read, and how they are kept.
use vstd::hash_map::StringHashMap;
use vstd::hash_set::StringHashSet;
use vstd::prelude::*;

use crate::ton::reading::{
    law_phases_are_read, law_trace_is_read, reads_action_phase, reads_compute_phase,
    reads_message, reads_trace,
};
use crate::utils::json::{
    as_flag, as_signed, as_text, as_unsigned, at, json_list, json_of_bytes, lemma_value_is_smaller, low_i32,
    low_u32, truncate_i32, truncate_u32, Json, JsonView,
};
use crate::utils::text::{opt_text, prefixed};
use crate::websocket::message::{
    message_list, opt_compute, trace_list, ActionPhaseInfo, ComputePhaseInfo,
    ComputePhaseView, MessageInfo, MessageView, TraceView, TransactionTrace,
};

verus! {

/// The text, or what stands in for it.
pub open spec fn text_or(text: Option<Seq<char>>, default: Seq<char>) -> Seq<char> {
    match text {
        Some(s) => s,
        None => default,
    }
}

/// The flag, or false.
pub open spec fn flag_or_false(flag: Option<bool>) -> bool {
    match flag {
        Some(b) => b,
        None => false,
    }
}

/// The low bits of the number, or zero.
pub open spec fn count_or_zero(number: Option<u64>) -> u32 {
    match number {
        Some(n) => low_u32(n),
        None => 0,
    }
}

/// The message that a JSON object describes.
pub open spec fn message_of(json: JsonView) -> MessageView {
    MessageView {
        hash: text_or(as_text(at(json, "hash"@)), Seq::empty()),
        source: as_text(at(json, "source"@)),
        destination: as_text(at(json, "destination"@)),
        value: text_or(as_text(at(json, "value"@)), "0"@),
        body: as_text(at(json, "body"@)),
        message_type: text_or(as_text(at(json, "msg_type"@)), "unknown"@),
    }
}

/// The incoming message, where the document is an object.
pub open spec fn in_message_of(json: JsonView) -> Option<MessageView> {
    match json {
        JsonView::Object(_) => Some(message_of(json)),
        _ => None,
    }
}

/// The messages of a list: its objects, in order.
pub open spec fn messages_of(items: Seq<JsonView>) -> Seq<MessageView>
    decreases items.len(),
{
    if items.len() == 0 {
        Seq::empty()
    } else {
        let before = messages_of(items.drop_last());
        match items.last() {
            JsonView::Object(_) => before.push(message_of(items.last())),
            _ => before,
        }
    }
}

/// The outgoing messages, where the document is a list.
pub open spec fn out_messages_of(json: JsonView) -> Seq<MessageView> {
    match json {
        JsonView::Array(items) => messages_of(items),
        _ => Seq::empty(),
    }
}

/// The computation phase, unless the document is `Null`.
pub open spec fn compute_phase_of(json: JsonView) -> Option<ComputePhaseView> {
    match json {
        JsonView::Null => None,
        _ => Some(
            ComputePhaseView {
                success: flag_or_false(as_flag(at(json, "success"@))),
                gas_used: text_or(as_text(at(json, "gas_used"@)), "0"@),
                gas_limit: text_or(as_text(at(json, "gas_limit"@)), "0"@),
                exit_code: match as_signed(at(json, "exit_code"@)) {
                    Some(code) => Some(low_i32(code)),
                    None => None,
                },
            },
        ),
    }
}

/// The action phase, unless the document is `Null`.
pub open spec fn action_phase_of(json: JsonView) -> Option<ActionPhaseInfo> {
    match json {
        JsonView::Null => None,
        _ => Some(
            ActionPhaseInfo {
                success: flag_or_false(as_flag(at(json, "success"@))),
                total_actions: count_or_zero(as_unsigned(at(json, "total_actions"@))),
                valid_actions: count_or_zero(as_unsigned(at(json, "valid_actions"@))),
                no_funds: flag_or_false(as_flag(at(json, "no_funds"@))),
            },
        ),
    }
}

/// The trace that an answer of the trace service describes, with all that is below it.
pub open spec fn trace_of(data: JsonView) -> TraceView
    decreases data,
{
    proof {
        lemma_value_is_smaller(data, "children"@);
    }
    let transaction = at(data, "transaction"@);
    let hash = text_or(as_text(at(transaction, "hash"@)), Seq::empty());
    let children = at(data, "children"@);
    TraceView {
        trace_id: "trace_"@ + hash,
        root_hash: hash,
        account: text_or(as_text(at(at(transaction, "account"@), "address"@)), Seq::empty()),
        lt: text_or(as_text(at(transaction, "lt"@)), "0"@),
        hash,
        now: count_or_zero(as_unsigned(at(transaction, "now"@))),
        in_msg: in_message_of(at(transaction, "in_msg"@)),
        out_msgs: out_messages_of(at(transaction, "out_msgs"@)),
        children: if children is Array {
            children_of(children)
        } else {
            Seq::empty()
        },
        total_fees: text_or(as_text(at(transaction, "total_fees"@)), "0"@),
        compute_phase: compute_phase_of(at(transaction, "compute"@)),
        action_phase: action_phase_of(at(transaction, "action"@)),
    }
}

/// The traces that a list describes: one for each of its objects, in order. What is no list
/// describes none.
pub open spec fn children_of(json: JsonView) -> Seq<TraceView>
    decreases json,
{
    match json {
        JsonView::Array(items) => traces_of(items),
        _ => Seq::empty(),
    }
}

/// The traces that the objects among `items` describe, in order.
pub open spec fn traces_of(items: Seq<JsonView>) -> Seq<TraceView>
    decreases items,
{
    if items.len() == 0 {
        Seq::empty()
    } else {
        let before = traces_of(items.drop_last());
        match items.last() {
            JsonView::Object(_) => before.push(trace_of(items.last())),
            _ => before,
        }
    }
}

/// The accounts of traces side by side, without what is below them.
pub open spec fn accounts_beside(traces: Seq<TraceView>) -> Set<Seq<char>> {
    Set::new(
        |account: Seq<char>|
            exists|i: int| 0 <= i < traces.len() && (#[trigger] traces[i]).account == account,
    )
}

/// The trace at `i` is the first of its account among those side by side, where those of `seen`
/// were seen before them.
pub open spec fn is_first(traces: Seq<TraceView>, seen: Set<Seq<char>>, i: int) -> bool {
    &&& !seen.contains(traces[i].account)
    &&& forall|j: int| 0 <= j < i ==> (#[trigger] traces[j]).account != traces[i].account
}

/// A trace cut down to one transaction of each account, and the accounts seen by then, where
/// those of `seen` were seen before it. The transaction itself stays. Its children come before
/// all that is below them.
pub open spec fn pruned(trace: TraceView, seen: Set<Seq<char>>) -> (TraceView, Set<Seq<char>>)
    decreases trace,
{
    let above = seen.insert(trace.account);
    let below = pruned_list(
        trace.children,
        above,
        above.union(accounts_beside(trace.children)),
    );
    (TraceView { children: below.0, ..trace }, below.1)
}

/// What is left of traces side by side, and the accounts seen by then: a trace that is not the
/// first of its account goes, with all that is below it. The accounts of `above` were seen before
/// the traces, and those of `seen` before what is below them.
pub open spec fn pruned_list(
    traces: Seq<TraceView>,
    above: Set<Seq<char>>,
    seen: Set<Seq<char>>,
) -> (Seq<TraceView>, Set<Seq<char>>)
    decreases traces,
{
    if traces.len() == 0 {
        (Seq::empty(), seen)
    } else {
        let before = pruned_list(traces.drop_last(), above, seen);
        if is_first(traces, above, traces.len() - 1) {
            let last = pruned(traces.last(), before.1);
            (before.0.push(last.0), last.1)
        } else {
            before
        }
    }
}

/// A trace cut down to one transaction of each account.
pub open spec fn without_repeats(trace: TraceView) -> TraceView {
    pruned(trace, Set::empty()).0
}

/// A request to the trace service.
#[derive(Debug)]
pub struct TraceRequest {
    pub url: String,
    /// The value of the `Authorization` header, where one is sent.
    pub authorization: Option<String>,
}

/// [`TraceRequest`] by its characters.
#[verifier::ext_equal]
pub struct TraceRequestView {
    pub url: Seq<char>,
    pub authorization: Option<Seq<char>>,
}

impl View for TraceRequest {
    type V = TraceRequestView;

    open spec fn view(&self) -> TraceRequestView {
        TraceRequestView { url: self.url@, authorization: opt_text(self.authorization) }
    }
}

/// An answer of the trace service.
#[derive(Debug)]
pub struct TraceResponse {
    /// The HTTP status code.
    pub status: u16,
    /// The status as it reads in an error text.
    pub status_text: String,
    pub body: Vec<u8>,
}

/// A result that holds a trace, by its views.
pub open spec fn trace_result(result: Result<TransactionTrace, String>) -> Result<
    TraceView,
    Seq<char>,
> {
    match result {
        Ok(trace) => Ok(trace@),
        Err(e) => Err(e@),
    }
}

/// An HTTP status of the success class.
pub open spec fn success_status(status: u16) -> bool {
    200 <= status < 300
}

/// Whether an HTTP status is of the success class.
pub fn is_success(status: u16) -> (success: bool)
    ensures
        success == success_status(status),
{
    200 <= status && status < 300
}

/// What an answer of the trace service, or the failure to get one, comes to before repeats are
/// dropped.
pub open spec fn fetched_trace(response: Result<TraceResponse, String>) -> Result<
    TraceView,
    Seq<char>,
> {
    match response {
        Err(e) => Err(e@),
        Ok(answer) => if !success_status(answer.status) {
            Err("API request failed with status: "@ + answer.status_text@)
        } else {
            match json_of_bytes(answer.body@) {
                Ok(data) => Ok(trace_of(data)),
                Err(_) => Err("error decoding response body"@),
            }
        },
    }
}

/// What the service has: where it asks for traces, and the traces that it keeps.
#[verifier::ext_equal]
pub struct TraceServiceView {
    pub api_endpoint: Seq<char>,
    pub api_key: Option<Seq<char>>,
    pub cache: Map<Seq<char>, TraceView>,
}

/// What the service does when asked for a trace.
#[derive(Debug)]
pub enum TraceLookup {
    /// The trace is at hand.
    Cached(TransactionTrace),
    /// The trace has to be asked for.
    Fetch(TraceRequest),
}

/// Finds, reads and keeps transaction traces.
pub struct TraceService {
    api_endpoint: String,
    api_key: Option<String>,
    trace_cache: StringHashMap<TransactionTrace>,
}

impl View for TraceService {
    type V = TraceServiceView;

    closed spec fn view(&self) -> TraceServiceView {
        TraceServiceView {
            api_endpoint: self.api_endpoint@,
            api_key: opt_text(self.api_key),
            cache: self.trace_cache@.map_values(|trace: TransactionTrace| trace@),
        }
    }
}

/// The request for the trace of a transaction.
pub open spec fn trace_request(service: TraceServiceView, tx_hash: Seq<char>) -> TraceRequestView {
    TraceRequestView {
        url: service.api_endpoint + "/v2/traces/"@ + tx_hash,
        authorization: match service.api_key {
            Some(key) => Some("Bearer "@ + key),
            None => None,
        },
    }
}

/// The kept trace of a transaction.
pub open spec fn kept_trace(service: TraceServiceView, tx_hash: Seq<char>) -> Option<TraceView> {
    if service.cache.contains_key(tx_hash) {
        Some(service.cache[tx_hash])
    } else {
        None
    }
}

/// The service once it keeps `trace` as the trace of `tx_hash`.
pub open spec fn with_trace(
    service: TraceServiceView,
    tx_hash: Seq<char>,
    trace: TraceView,
) -> TraceServiceView {
    TraceServiceView { cache: service.cache.insert(tx_hash, trace), ..service }
}

/// The text at `key`, or what stands in for it.
fn text_at_or(json: &Json, key: &str, default: &str) -> (text: String)
    ensures
        text@ == text_or(as_text(at(json@, key@)), default@),
{
    match json.text_at(key) {
        Some(s) => s,
        None => default.to_owned(),
    }
}

/// The text at `key`, or the empty text.
fn text_at_or_empty(json: &Json, key: &str) -> (text: String)
    ensures
        text@ == text_or(as_text(at(json@, key@)), Seq::empty()),
{
    match json.text_at(key) {
        Some(s) => s,
        None => String::new(),
    }
}

/// The low bits of the number at `key`, or zero.
fn count_at(json: &Json, key: &str) -> (count: u32)
    ensures
        count == count_or_zero(as_unsigned(at(json@, key@))),
{
    match json.unsigned_at(key) {
        Some(n) => truncate_u32(n),
        None => 0,
    }
}

/// The value at `key`, or `null` where there is none.
fn value_at<'a>(json: &'a Json, key: &str, null: &'a Json) -> (value: &'a Json)
    requires
        null@ is Null,
    ensures
        value@ == at(json@, key@),
{
    match json.get(key) {
        Some(value) => value,
        None => null,
    }
}

impl TraceService {
    /// A service that asks at `api_endpoint` and has no traces yet.
    pub fn new(api_endpoint: String, api_key: Option<String>) -> (service: Self)
        ensures
            service@ == (TraceServiceView {
                api_endpoint: api_endpoint@,
                api_key: opt_text(api_key),
                cache: Map::empty(),
            }),
    {
        let service = TraceService { api_endpoint, api_key, trace_cache: StringHashMap::new() };
        assert(service@.cache =~= Map::empty());
        service
    }

    /// Looks a trace up, or says how to ask for it.
    pub fn get_transaction_trace(&self, tx_hash: &str) -> (lookup: TraceLookup)
        ensures
            match lookup {
                TraceLookup::Cached(trace) => kept_trace(self@, tx_hash@) == Some(trace@),
                TraceLookup::Fetch(request) => kept_trace(self@, tx_hash@) is None && request@
                    == trace_request(self@, tx_hash@),
            },
    {
        match self.trace_cache.get(tx_hash) {
            Some(trace) => TraceLookup::Cached(trace.clone()),
            None => {
                let mut url: String = self.api_endpoint.clone();
                url.append("/v2/traces/");
                url.append(tx_hash);
                let authorization = match &self.api_key {
                    Some(key) => Some(prefixed("Bearer ", key)),
                    None => None,
                };
                TraceLookup::Fetch(TraceRequest { url, authorization })
            },
        }
    }

    /// Reads the answer to a request for a trace.
    pub fn fetch_trace_from_api(response: Result<TraceResponse, String>) -> (result: Result<
        TransactionTrace,
        String,
    >)
        ensures
            trace_result(result) == fetched_trace(response),
    {
        match response {
            Err(e) => Err(e),
            Ok(answer) => {
                if !is_success(answer.status) {
                    return Err(prefixed("API request failed with status: ", &answer.status_text));
                }
                match Json::parse_slice(&answer.body) {
                    Ok(data) => Ok(Self::parse_trace_from_api_response(&data)),
                    Err(_) => Err("error decoding response body".to_owned()),
                }
            },
        }
    }

    /// Takes the answer to a request for the trace of `tx_hash`: the trace, without repeats, is
    /// kept and handed out. A failure leaves the service as it was.
    pub fn receive_trace(
        &mut self,
        tx_hash: &str,
        response: Result<TraceResponse, String>,
    ) -> (result: Result<TransactionTrace, String>)
        ensures
            match fetched_trace(response) {
                Ok(trace) => {
                    &&& trace_result(result) == Ok::<TraceView, Seq<char>>(without_repeats(trace))
                    &&& final(self)@ == with_trace(old(self)@, tx_hash@, without_repeats(trace))
                },
                Err(e) => {
                    &&& trace_result(result) == Err::<TraceView, Seq<char>>(e)
                    &&& final(self)@ == old(self)@
                },
            },
    {
        let trace = match Self::fetch_trace_from_api(response) {
            Ok(trace) => trace,
            Err(e) => {
                return Err(e);
            },
        };
        let deduplicated = Self::deduplicate_trace_by_address(&trace);
        self.trace_cache.insert(tx_hash.to_owned(), deduplicated.clone());
        assert(self@.cache =~= old(self)@.cache.insert(tx_hash@, deduplicated@));
        Ok(deduplicated)
    }

    /// Reads a trace from an answer of the trace service.
    pub fn parse_trace_from_api_response(data: &Json) -> (trace: TransactionTrace)
        ensures
            trace@ == trace_of(data@),
            reads_trace(trace@, data@),
        decreases data@, 1int,
    {
        let null = Json::Null;
        let transaction = value_at(data, "transaction", &null);
        let hash = text_at_or_empty(transaction, "hash");
        let account = text_at_or_empty(value_at(transaction, "account", &null), "address");
        let lt = text_at_or(transaction, "lt", "0");
        let now = count_at(transaction, "now");
        let total_fees = text_at_or(transaction, "total_fees", "0");

        let in_msg_data = value_at(transaction, "in_msg", &null);
        let in_msg = match in_msg_data {
            Json::Object(_) => Some(Self::parse_message_info(in_msg_data)),
            _ => None,
        };
        let out_msgs = Self::parse_messages(value_at(transaction, "out_msgs", &null));
        let compute_phase = Self::parse_compute_phase(value_at(transaction, "compute", &null));
        let action_phase = Self::parse_action_phase(value_at(transaction, "action", &null));
        let children = Self::get_children_transactions(data);

        let trace = TransactionTrace {
            trace_id: prefixed("trace_", &hash),
            root_hash: hash.clone(),
            account,
            lt,
            hash,
            now,
            in_msg,
            out_msgs,
            children,
            total_fees,
            compute_phase,
            action_phase,
        };
        assert(trace@.children =~= trace_of(data@).children);
        proof {
            law_trace_is_read(data@);
        }
        trace
    }

    /// Reads the outgoing messages: the objects of a list.
    fn parse_messages(json: &Json) -> (messages: Vec<MessageInfo>)
        ensures
            message_list(messages@) == out_messages_of(json@),
    {
        let mut messages: Vec<MessageInfo> = Vec::new();
        if let Json::Array(items) = json {
            let ghost all = json_list(items@);
            assert(json@->Array_0 =~= all);
            for i in 0..items.len()
                invariant
                    all == json_list(items@),
                    message_list(messages@) =~= messages_of(all.take(i as int)),
            {
                let item = &items[i];
                assert(all.take(i + 1).drop_last() =~= all.take(i as int));
                assert(all.take(i + 1).last() == item@);
                if let Json::Object(_) = item {
                    let message = Self::parse_message_info(item);
                    messages.push(message);
                }
            }
            assert(all.take(items.len() as int) =~= all);
        }
        messages
    }

    /// Reads a message.
    pub fn parse_message_info(json: &Json) -> (message: MessageInfo)
        ensures
            message@ == message_of(json@),
            reads_message(message@, json@),
    {
        MessageInfo {
            hash: text_at_or_empty(json, "hash"),
            source: json.text_at("source"),
            destination: json.text_at("destination"),
            value: text_at_or(json, "value", "0"),
            body: json.text_at("body"),
            message_type: text_at_or(json, "msg_type", "unknown"),
        }
    }

    /// Reads the computation phase.
    pub fn parse_compute_phase(json: &Json) -> (phase: Option<ComputePhaseInfo>)
        ensures
            opt_compute(phase) == compute_phase_of(json@),
            reads_compute_phase(opt_compute(phase), json@),
    {
        proof {
            law_phases_are_read(json@);
        }
        if let Json::Null = json {
            return None;
        }
        let exit_code = match json.signed_at("exit_code") {
            Some(code) => Some(truncate_i32(code)),
            None => None,
        };
        Some(
            ComputePhaseInfo {
                success: json.flag_at("success").unwrap_or(false),
                gas_used: text_at_or(json, "gas_used", "0"),
                gas_limit: text_at_or(json, "gas_limit", "0"),
                exit_code,
            },
        )
    }

    /// Reads the action phase.
    pub fn parse_action_phase(json: &Json) -> (phase: Option<ActionPhaseInfo>)
        ensures
            phase == action_phase_of(json@),
            reads_action_phase(phase, json@),
    {
        proof {
            law_phases_are_read(json@);
        }
        if let Json::Null = json {
            return None;
        }
        Some(
            ActionPhaseInfo {
                success: json.flag_at("success").unwrap_or(false),
                total_actions: count_at(json, "total_actions"),
                valid_actions: count_at(json, "valid_actions"),
                no_funds: json.flag_at("no_funds").unwrap_or(false),
            },
        )
    }

    /// Reads the transactions below a transaction: the objects of its list of children, each
    /// with what is below it in turn.
    pub fn get_children_transactions(data: &Json) -> (children: Vec<TransactionTrace>)
        ensures
            trace_list(children@) == children_of(at(data@, "children"@)),
        decreases data@, 0int,
    {
        let mut children: Vec<TransactionTrace> = Vec::new();
        if let Some(list) = data.get("children") {
            if let Json::Array(items) = list {
                let ghost all = json_list(items@);
                assert(list@->Array_0 =~= all);
                proof {
                    lemma_value_is_smaller(data@, "children"@);
                }
                for i in 0..items.len()
                    invariant
                        all == json_list(items@),
                        at(data@, "children"@) == JsonView::Array(all),
                        decreases_to!(data@ => at(data@, "children"@)),
                        trace_list(children@) =~= traces_of(all.take(i as int)),
                {
                    let item = &items[i];
                    assert(all.take(i + 1).drop_last() =~= all.take(i as int));
                    assert(all.take(i + 1).last() == item@);
                    if let Json::Object(_) = item {
                        proof {
                            let whole = at(data@, "children"@);
                            assert(whole->Array_0[i as int] == item@);
                            assert(decreases_to!(whole => whole->Array_0));
                            assert(decreases_to!(whole->Array_0 => whole->Array_0[i as int]));
                        }
                        children.push(Self::parse_trace_from_api_response(item));
                    }
                }
                assert(all.take(items.len() as int) =~= all);
            }
        }
        children
    }

    /// Drops repeated accounts: of all transactions of an account, wherever in the trace, the
    /// first one stays. The children of a transaction come before all that is below them, and a
    /// transaction goes with all that is below it.
    pub fn deduplicate_trace_by_address(trace: &TransactionTrace) -> (result: TransactionTrace)
        ensures
            result@ == pruned(trace@, Set::empty()).0,
            result@.account == trace@.account,
            accounts_of(result@).no_duplicates(),
            is_cut_of(result@, trace@, accounts_of(result@)),
            drops_only_what_was_met(result@, trace@, Set::empty()),
    {
        let mut seen_addresses = StringHashSet::new();
        let result = Self::prune(trace, &mut seen_addresses);
        proof {
            law_result_has_each_account_once(trace@);
            law_no_account_is_lost_below_what_stays(trace@);
            law_only_what_was_met_is_dropped(trace@);
        }
        result
    }

    /// Drops what repeats an account in a trace, or belongs to one that was seen before.
    fn prune(trace: &TransactionTrace, seen_addresses: &mut StringHashSet) -> (result:
        TransactionTrace)
        ensures
            (result@, final(seen_addresses)@) == pruned(trace@, old(seen_addresses)@),
        decreases trace,
    {
        seen_addresses.insert(trace.account.clone());
        let ghost all = trace@.children;
        let ghost above = seen_addresses@;
        let mut kept: Vec<bool> = Vec::new();
        assert(above =~= above.union(accounts_beside(all.take(0))));
        for i in 0..trace.children.len()
            invariant
                all == trace@.children,
                all.len() == trace.children@.len(),
                kept@.len() == i,
                seen_addresses@ =~= above.union(accounts_beside(all.take(i as int))),
                forall|j: int| 0 <= j < i ==> #[trigger] kept@[j] == is_first(all, above, j),
        {
            let child = &trace.children[i];
            assert(child@ == all[i as int]);
            proof {
                lemma_beside(all, i as int);
            }
            let first = !seen_addresses.contains(&child.account);
            kept.push(first);
            seen_addresses.insert(child.account.clone());
        }
        assert(all.take(trace.children.len() as int) =~= all);
        let ghost start = seen_addresses@;
        let mut children: Vec<TransactionTrace> = Vec::new();
        assert(trace_list(children@) =~= pruned_list(all.take(0), above, start).0);
        for i in 0..trace.children.len()
            invariant
                all == trace@.children,
                all.len() == trace.children@.len(),
                kept@.len() == all.len(),
                forall|j: int|
                    0 <= j < all.len() ==> #[trigger] kept@[j] == is_first(all, above, j),
                trace_list(children@) =~= pruned_list(all.take(i as int), above, start).0,
                seen_addresses@ == pruned_list(all.take(i as int), above, start).1,
        {
            let child = &trace.children[i];
            assert(all.take(i + 1).drop_last() =~= all.take(i as int));
            assert(all.take(i + 1).last() == child@);
            proof {
                lemma_first_in_prefix(all, above, i as int);
            }
            if kept[i] {
                children.push(Self::prune(child, seen_addresses));
            }
        }
        trace.with_children(children)
    }

    /// Forgets all traces.
    pub fn clear_cache(&mut self)
        ensures
            final(self)@ == (TraceServiceView { cache: Map::empty(), ..old(self)@ }),
    {
        self.trace_cache.clear();
        assert(self@.cache =~= Map::empty());
    }

    /// How many traces are kept.
    pub fn get_cache_size(&self) -> (size: usize)
        ensures
            size == self@.cache.len(),
    {
        assert(self@.cache.dom() =~= self.trace_cache@.dom());
        self.trace_cache.len()
    }
}

impl Default for TraceService {
    fn default() -> (service: Self)
        ensures
            service@ == (TraceServiceView {
                api_endpoint: "https://tonapi.io"@,
                api_key: None,
                cache: Map::empty(),
            }),
    {
        TraceService::new("https://tonapi.io".to_owned(), None)
    }
}

/// In every trace that the service keeps, each account occurs once.
pub open spec fn keeps_each_account_once(service: TraceServiceView) -> bool {
    forall|tx_hash: Seq<char>| #[trigger]
        service.cache.contains_key(tx_hash) ==> accounts_of(service.cache[tx_hash]).no_duplicates()
}

/// The accounts of all transactions of a trace, a transaction before what is below it.
pub open spec fn accounts_of(trace: TraceView) -> Seq<Seq<char>>
    decreases trace,
{
    seq![trace.account] + accounts_of_list(trace.children)
}

/// The accounts of all transactions of traces side by side, in order.
pub open spec fn accounts_of_list(traces: Seq<TraceView>) -> Seq<Seq<char>>
    decreases traces,
{
    if traces.len() == 0 {
        Seq::empty()
    } else {
        accounts_of_list(traces.drop_last()) + accounts_of(traces.last())
    }
}

/// What two lists hold together.
proof fn lemma_joined(first: Seq<Seq<char>>, second: Seq<Seq<char>>)
    ensures
        forall|a: Seq<char>| #[trigger]
            (first + second).contains(a) <==> first.contains(a) || second.contains(a),
        (first + second).no_duplicates() <==> {
            &&& first.no_duplicates()
            &&& second.no_duplicates()
            &&& forall|a: Seq<char>| #[trigger] first.contains(a) ==> !second.contains(a)
        },
{
    let both = first + second;
    let n = first.len() as int;
    assert forall|a: Seq<char>| #[trigger]
        both.contains(a) <==> first.contains(a) || second.contains(a) by {
        if first.contains(a) {
            let k = choose|k: int| 0 <= k < first.len() && first[k] == a;
            assert(both[k] == a);
        }
        if second.contains(a) {
            let k = choose|k: int| 0 <= k < second.len() && second[k] == a;
            assert(both[n + k] == a);
        }
    }
    if both.no_duplicates() {
        assert forall|i: int, j: int|
            0 <= i < first.len() && 0 <= j < first.len() && i != j implies first[i]
            != first[j] by {
            assert(both[i] != both[j]);
        }
        assert forall|i: int, j: int|
            0 <= i < second.len() && 0 <= j < second.len() && i != j implies second[i]
            != second[j] by {
            assert(both[n + i] != both[n + j]);
        }
        assert forall|a: Seq<char>| #[trigger] first.contains(a) implies !second.contains(a) by {
            if second.contains(a) {
                let i = choose|i: int| 0 <= i < first.len() && first[i] == a;
                let j = choose|j: int| 0 <= j < second.len() && second[j] == a;
                assert(both[i] != both[n + j]);
            }
        }
    }
    if first.no_duplicates() && second.no_duplicates() && (forall|a: Seq<char>| #[trigger]
        first.contains(a) ==> !second.contains(a)) {
        assert forall|i: int, j: int|
            0 <= i < both.len() && 0 <= j < both.len() && i != j implies both[i] != both[j] by {
            if i < n && j >= n {
                assert(first.contains(both[i]));
                assert(second[j - n] == both[j]);
            }
            if j < n && i >= n {
                assert(first.contains(both[j]));
                assert(second[i - n] == both[i]);
            }
        }
    }
}

/// What one more trace adds to the accounts side by side.
proof fn lemma_beside(traces: Seq<TraceView>, i: int)
    requires
        0 <= i < traces.len(),
    ensures
        accounts_beside(traces.take(i + 1)) == accounts_beside(traces.take(i)).insert(
            traces[i].account,
        ),
        forall|above: Set<Seq<char>>| #[trigger]
            is_first(traces, above, i) <==> !above.union(accounts_beside(traces.take(i))).contains(
                traces[i].account,
            ),
{
    let before = traces.take(i);
    let after = traces.take(i + 1);
    assert forall|a: Seq<char>| #[trigger]
        accounts_beside(after).contains(a) <==> accounts_beside(before).insert(
            traces[i].account,
        ).contains(a) by {
        if accounts_beside(after).contains(a) {
            let k = choose|k: int| 0 <= k < after.len() && (#[trigger] after[k]).account == a;
            if k < i {
                assert(before[k].account == a);
            }
        }
        if accounts_beside(before).contains(a) {
            let k = choose|k: int| 0 <= k < before.len() && (#[trigger] before[k]).account == a;
            assert(after[k].account == a);
        }
        if a == traces[i].account {
            assert(after[i].account == a);
        }
    }
    assert(accounts_beside(after) =~= accounts_beside(before).insert(traces[i].account));
    assert forall|above: Set<Seq<char>>| #[trigger]
        is_first(traces, above, i) <==> !above.union(accounts_beside(before)).contains(
            traces[i].account,
        ) by {
        if accounts_beside(before).contains(traces[i].account) {
            let k = choose|k: int|
                0 <= k < before.len() && (#[trigger] before[k]).account == traces[i].account;
            assert(traces[k].account == traces[i].account);
        }
        if !accounts_beside(before).contains(traces[i].account) {
            assert forall|j: int| 0 <= j < i implies (#[trigger] traces[j]).account
                != traces[i].account by {
                assert(before[j] == traces[j]);
            }
        }
    }
}

/// Whether a trace is the first of its account does not depend on those after it.
proof fn lemma_first_in_prefix(traces: Seq<TraceView>, above: Set<Seq<char>>, i: int)
    requires
        0 <= i < traces.len(),
    ensures
        is_first(traces.take(i + 1), above, i) == is_first(traces, above, i),
{
    let prefix = traces.take(i + 1);
    assert forall|j: int| 0 <= j <= i implies prefix[j] == traces[j] by {}
    if is_first(prefix, above, i) {
        assert forall|j: int| 0 <= j < i implies (#[trigger] traces[j]).account
            != traces[i].account by {
            assert(prefix[j].account != prefix[i].account);
        }
    }
}

/// What is left of a trace: each account once, below it none that was seen, and with it all that
/// counts as seen.
proof fn lemma_pruned(trace: TraceView, seen: Set<Seq<char>>)
    ensures
        accounts_of(pruned(trace, seen).0).no_duplicates(),
        forall|a: Seq<char>| #[trigger]
            accounts_of_list(pruned(trace, seen).0.children).contains(a) ==> !seen.contains(a) && a
                != trace.account,
        forall|a: Seq<char>| #[trigger]
            accounts_of(pruned(trace, seen).0).contains(a) <==> a == trace.account
                || accounts_of_list(pruned(trace, seen).0.children).contains(a),
        forall|a: Seq<char>| #[trigger]
            pruned(trace, seen).1.contains(a) <==> seen.contains(a) || accounts_of(
                pruned(trace, seen).0,
            ).contains(a),
    decreases trace,
{
    let result = pruned(trace, seen).0;
    let own = seq![trace.account];
    let above = seen.insert(trace.account);
    let beside = accounts_beside(trace.children);
    let listed = accounts_of_list(result.children);
    assert forall|i: int| 0 <= i < trace.children.len() implies above.union(beside).contains(
        (#[trigger] trace.children[i]).account,
    ) by {
        assert(beside.contains(trace.children[i].account));
    }
    lemma_pruned_list(trace.children, above, above.union(beside));
    lemma_joined(own, listed);
    assert(own[0] == trace.account);
    assert(own.contains(trace.account));
    assert(accounts_of(result) == own + listed);
    assert forall|a: Seq<char>| beside.contains(a) implies above.contains(a) || #[trigger]
        listed.contains(a) by {
        let i = choose|i: int|
            0 <= i < trace.children.len() && (#[trigger] trace.children[i]).account == a;
    }
}

/// The same of traces side by side. An account that is left is that of one of them, or was not
/// seen before what is below them; and each account of them is left, or was seen above.
proof fn lemma_pruned_list(traces: Seq<TraceView>, above: Set<Seq<char>>, seen: Set<Seq<char>>)
    requires
        above.subset_of(seen),
        forall|i: int| 0 <= i < traces.len() ==> seen.contains((#[trigger] traces[i]).account),
    ensures
        accounts_of_list(pruned_list(traces, above, seen).0).no_duplicates(),
        forall|a: Seq<char>| #[trigger]
            accounts_of_list(pruned_list(traces, above, seen).0).contains(a) ==> !above.contains(a)
                && (!seen.contains(a) || accounts_beside(traces).contains(a)),
        forall|a: Seq<char>| #[trigger]
            pruned_list(traces, above, seen).1.contains(a) <==> seen.contains(a)
                || accounts_of_list(pruned_list(traces, above, seen).0).contains(a),
        forall|i: int|
            0 <= i < traces.len() ==> above.contains((#[trigger] traces[i]).account)
                || accounts_of_list(pruned_list(traces, above, seen).0).contains(traces[i].account),
    decreases traces,
{
    if traces.len() > 0 {
        let earlier = traces.drop_last();
        let n = traces.len() - 1;
        let last = traces.last();
        assert forall|i: int| 0 <= i < earlier.len() implies seen.contains(
            (#[trigger] earlier[i]).account,
        ) by {
            assert(earlier[i] == traces[i]);
        }
        lemma_pruned_list(earlier, above, seen);
        let before = pruned_list(earlier, above, seen);
        let result = pruned_list(traces, above, seen);
        assert forall|a: Seq<char>| #[trigger]
            accounts_beside(earlier).contains(a) implies accounts_beside(traces).contains(a) by {
            let k = choose|k: int| 0 <= k < earlier.len() && (#[trigger] earlier[k]).account == a;
            assert(traces[k].account == a);
        }
        assert(traces[n] == last);
        assert(accounts_beside(traces).contains(last.account));
        if is_first(traces, above, n) {
            let kept = pruned(last, before.1);
            lemma_pruned(last, before.1);
            assert(!accounts_of_list(before.0).contains(last.account)) by {
                if accounts_of_list(before.0).contains(last.account) {
                    assert(seen.contains(traces[n].account));
                    let k = choose|k: int|
                        0 <= k < earlier.len() && (#[trigger] earlier[k]).account == last.account;
                    assert(traces[k].account == last.account);
                }
            }
            lemma_joined(accounts_of_list(before.0), accounts_of(kept.0));
            assert(before.0.push(kept.0).drop_last() =~= before.0);
            assert(accounts_of_list(result.0) == accounts_of_list(before.0) + accounts_of(kept.0));
            assert forall|a: Seq<char>| #[trigger]
                accounts_of_list(before.0).contains(a) implies !accounts_of(kept.0).contains(a) by {
                assert(before.1.contains(a));
            }
            assert forall|a: Seq<char>| #[trigger]
                accounts_of_list(result.0).contains(a) implies !above.contains(a) && (
            !seen.contains(a) || accounts_beside(traces).contains(a)) by {
                if accounts_of_list(before.0).contains(a) {
                } else if a != last.account {
                    assert(accounts_of_list(kept.0.children).contains(a));
                    assert(!before.1.contains(a));
                }
            }
            assert(accounts_of(kept.0).contains(last.account));
        }
        assert forall|i: int| 0 <= i < traces.len() implies above.contains(
            (#[trigger] traces[i]).account,
        ) || accounts_of_list(result.0).contains(traces[i].account) by {
            if i < n {
                assert(earlier[i] == traces[i]);
            } else if !is_first(traces, above, n) && !above.contains(last.account) {
                let j = choose|j: int|
                    0 <= j < n && (#[trigger] traces[j]).account == last.account;
                assert(earlier[j] == traces[j]);
            }
        }
    }
}

/// In the result each account occurs once, wherever in the trace; and the transaction itself is
/// there.
pub proof fn law_result_has_each_account_once(trace: TraceView)
    ensures
        accounts_of(without_repeats(trace)).no_duplicates(),
        without_repeats(trace) == (TraceView {
            children: without_repeats(trace).children,
            ..trace
        }),
{
    lemma_pruned(trace, Set::empty());
}

/// What it means of traces side by side that no account occurs twice in them.
proof fn lemma_list_is_distinct(traces: Seq<TraceView>)
    ensures
        forall|i: int, a: Seq<char>|
            0 <= i < traces.len() && #[trigger] accounts_of(traces[i]).contains(a)
                ==> accounts_of_list(traces).contains(a),
        accounts_of_list(traces).no_duplicates() ==> {
            &&& forall|i: int|
                0 <= i < traces.len() ==> accounts_of(#[trigger] traces[i]).no_duplicates()
            &&& forall|i: int, j: int, a: Seq<char>|
                0 <= i < j < traces.len() && #[trigger] accounts_of(traces[i]).contains(a)
                    ==> !#[trigger] accounts_of(traces[j]).contains(a)
        },
    decreases traces.len(),
{
    if traces.len() > 0 {
        let earlier = traces.drop_last();
        let n = traces.len() - 1;
        lemma_list_is_distinct(earlier);
        lemma_joined(accounts_of_list(earlier), accounts_of(traces.last()));
        assert forall|i: int, a: Seq<char>|
            0 <= i < traces.len() && #[trigger] accounts_of(traces[i]).contains(
                a,
            ) implies accounts_of_list(traces).contains(a) by {
            if i < n {
                assert(accounts_of(earlier[i]).contains(a));
            }
        }
        if accounts_of_list(traces).no_duplicates() {
            assert forall|i: int| 0 <= i < traces.len() implies accounts_of(
                #[trigger] traces[i],
            ).no_duplicates() by {
                if i < n {
                    assert(earlier[i] == traces[i]);
                }
            }
            assert forall|i: int, j: int, a: Seq<char>|
                0 <= i < j < traces.len() && #[trigger] accounts_of(traces[i]).contains(
                    a,
                ) implies !#[trigger] accounts_of(traces[j]).contains(a) by {
                assert(accounts_of(earlier[i]).contains(a));
                if j < n {
                    assert(earlier[j] == traces[j]);
                }
            }
        }
    }
}

/// The accounts of a trace are its own and those below it.
proof fn lemma_own_and_below(trace: TraceView)
    ensures
        forall|a: Seq<char>| #[trigger]
            accounts_of(trace).contains(a) <==> a == trace.account || accounts_of_list(
                trace.children,
            ).contains(a),
        accounts_of(trace).no_duplicates() <==> {
            &&& accounts_of_list(trace.children).no_duplicates()
            &&& !accounts_of_list(trace.children).contains(trace.account)
        },
{
    let own = seq![trace.account];
    lemma_joined(own, accounts_of_list(trace.children));
    assert(own[0] == trace.account);
    assert(own.contains(trace.account));
    assert(forall|a: Seq<char>| #[trigger] own.contains(a) ==> a == trace.account);
}

/// A trace in which each account occurs once comes out as it went in, where none of the accounts
/// below it was seen before.
proof fn lemma_distinct_trace_stays(trace: TraceView, seen: Set<Seq<char>>)
    requires
        accounts_of(trace).no_duplicates(),
        forall|a: Seq<char>| #[trigger]
            accounts_of_list(trace.children).contains(a) ==> !seen.contains(a),
    ensures
        pruned(trace, seen).0 == trace,
    decreases trace,
{
    let above = seen.insert(trace.account);
    let level = above.union(accounts_beside(trace.children));
    lemma_own_and_below(trace);
    lemma_list_is_distinct(trace.children);
    assert forall|i: int| 0 <= i < trace.children.len() implies !above.contains(
        (#[trigger] trace.children[i]).account,
    ) && level.contains(trace.children[i].account) by {
        lemma_own_and_below(trace.children[i]);
        assert(accounts_of(trace.children[i]).contains(trace.children[i].account));
        assert(accounts_beside(trace.children).contains(trace.children[i].account));
    }
    assert forall|i: int, a: Seq<char>|
        0 <= i < trace.children.len() && #[trigger] accounts_of_list(
            trace.children[i].children,
        ).contains(a) implies !level.contains(a) by {
        lemma_own_and_below(trace.children[i]);
        assert(accounts_of(trace.children[i]).contains(a));
        if accounts_beside(trace.children).contains(a) {
            let j = choose|j: int|
                0 <= j < trace.children.len() && (#[trigger] trace.children[j]).account == a;
            lemma_own_and_below(trace.children[j]);
            assert(accounts_of(trace.children[j]).contains(a));
            if i < j {
                assert(!accounts_of(trace.children[j]).contains(a));
            } else if j < i {
                assert(!accounts_of(trace.children[i]).contains(a));
            } else {
                assert(accounts_of(trace.children[i]).no_duplicates());
            }
        }
    }
    lemma_distinct_list_stays(trace.children, above, level);
}

/// The same of traces side by side.
proof fn lemma_distinct_list_stays(
    traces: Seq<TraceView>,
    above: Set<Seq<char>>,
    seen: Set<Seq<char>>,
)
    requires
        accounts_of_list(traces).no_duplicates(),
        above.subset_of(seen),
        forall|i: int|
            0 <= i < traces.len() ==> !above.contains((#[trigger] traces[i]).account)
                && seen.contains(traces[i].account),
        forall|i: int, a: Seq<char>|
            0 <= i < traces.len() && #[trigger] accounts_of_list(traces[i].children).contains(a)
                ==> !seen.contains(a),
    ensures
        pruned_list(traces, above, seen).0 == traces,
    decreases traces,
{
    if traces.len() > 0 {
        let earlier = traces.drop_last();
        let n = traces.len() - 1;
        let last = traces.last();
        lemma_joined(accounts_of_list(earlier), accounts_of(last));
        lemma_list_is_distinct(traces);
        lemma_own_and_below(last);
        assert(traces[n] == last);
        assert forall|i: int| 0 <= i < earlier.len() implies !above.contains(
            (#[trigger] earlier[i]).account,
        ) && seen.contains(earlier[i].account) by {
            assert(earlier[i] == traces[i]);
        }
        assert forall|i: int, a: Seq<char>|
            0 <= i < earlier.len() && #[trigger] accounts_of_list(earlier[i].children).contains(
                a,
            ) implies !seen.contains(a) by {
            assert(accounts_of_list(traces[i].children).contains(a));
        }
        lemma_distinct_list_stays(earlier, above, seen);
        lemma_pruned_list(earlier, above, seen);
        let before = pruned_list(earlier, above, seen);
        assert(is_first(traces, above, n)) by {
            assert forall|j: int| 0 <= j < n implies (#[trigger] traces[j]).account
                != traces[n].account by {
                lemma_own_and_below(traces[j]);
                assert(accounts_of(traces[j]).contains(traces[j].account));
                assert(accounts_of(traces[n]).contains(traces[n].account));
            }
        }
        assert forall|a: Seq<char>| #[trigger]
            accounts_of_list(last.children).contains(a) implies !before.1.contains(a) by {
            assert(accounts_of_list(traces[n].children).contains(a));
            assert(accounts_of(last).contains(a));
        }
        assert(accounts_of(traces[n]).no_duplicates());
        lemma_distinct_trace_stays(last, before.1);
        assert(earlier.push(last) =~= traces);
    } else {
        assert(pruned_list(traces, above, seen).0 =~= traces);
    }
}

/// A trace in which each account occurs once comes out as it went in.
pub proof fn law_distinct_trace_stays(trace: TraceView)
    requires
        accounts_of(trace).no_duplicates(),
    ensures
        without_repeats(trace) == trace,
{
    lemma_distinct_trace_stays(trace, Set::empty());
}

/// Dropping repeats twice drops no more than dropping them once.
pub proof fn law_dropping_repeats_is_idempotent(trace: TraceView)
    ensures
        without_repeats(without_repeats(trace)) == without_repeats(trace),
{
    law_result_has_each_account_once(trace);
    law_distinct_trace_stays(without_repeats(trace));
}

/// What is left of a trace has no account that the trace did not have.
proof fn lemma_no_new_account(trace: TraceView, seen: Set<Seq<char>>, account: Seq<char>)
    requires
        accounts_of(pruned(trace, seen).0).contains(account),
    ensures
        accounts_of(trace).contains(account),
    decreases trace,
{
    let result = pruned(trace, seen).0;
    let above = seen.insert(trace.account);
    lemma_own_and_below(trace);
    lemma_own_and_below(result);
    if accounts_of_list(result.children).contains(account) {
        lemma_no_new_account_in_list(
            trace.children,
            above,
            above.union(accounts_beside(trace.children)),
            account,
        );
    }
}

/// The same of traces side by side.
proof fn lemma_no_new_account_in_list(
    traces: Seq<TraceView>,
    above: Set<Seq<char>>,
    seen: Set<Seq<char>>,
    account: Seq<char>,
)
    requires
        accounts_of_list(pruned_list(traces, above, seen).0).contains(account),
    ensures
        accounts_of_list(traces).contains(account),
    decreases traces,
{
    if traces.len() > 0 {
        let before = pruned_list(traces.drop_last(), above, seen);
        lemma_joined(accounts_of_list(traces.drop_last()), accounts_of(traces.last()));
        if !is_first(traces, above, traces.len() - 1) {
            lemma_no_new_account_in_list(traces.drop_last(), above, seen, account);
        } else {
            let last = pruned(traces.last(), before.1);
            lemma_joined(accounts_of_list(before.0), accounts_of(last.0));
            assert(before.0.push(last.0).drop_last() =~= before.0);
            if accounts_of(last.0).contains(account) {
                lemma_no_new_account(traces.last(), before.1, account);
            } else {
                lemma_no_new_account_in_list(traces.drop_last(), above, seen, account);
            }
        }
    }
}

/// No account is new in the result.
pub proof fn law_no_account_is_new(trace: TraceView, account: Seq<char>)
    requires
        accounts_of(without_repeats(trace)).contains(account),
    ensures
        accounts_of(trace).contains(account),
{
    lemma_no_new_account(trace, Set::empty(), account);
}

/// The child at `i` is the first sight of its account: neither the transaction itself nor an
/// earlier child belongs to it.
pub open spec fn first_sight(trace: TraceView, i: int) -> bool {
    is_first(trace.children, set![trace.account], i)
}

/// Those of the first `n` children that are the first sight of their account, in order.
pub open spec fn first_sights(trace: TraceView, n: nat) -> Seq<TraceView>
    decreases n,
{
    if n == 0 {
        Seq::empty()
    } else if first_sight(trace, n - 1) {
        first_sights(trace, (n - 1) as nat).push(trace.children[n - 1])
    } else {
        first_sights(trace, (n - 1) as nat)
    }
}

/// The same transaction, whatever is below it.
pub open spec fn same_transaction(first: TraceView, second: TraceView) -> bool {
    first == (TraceView { children: first.children, ..second })
}

/// What is left of the first `n` children.
proof fn lemma_first_sights(trace: TraceView, seen: Set<Seq<char>>, n: nat)
    requires
        n <= trace.children.len(),
    ensures
        ({
            let left = pruned_list(trace.children.take(n as int), set![trace.account], seen).0;
            &&& left.len() == first_sights(trace, n).len()
            &&& forall|k: int|
                0 <= k < left.len() ==> {
                    &&& same_transaction(#[trigger] left[k], first_sights(trace, n)[k])
                    &&& first_sights(trace, n)[k].children.len() == 0 ==> left[k].children.len()
                        == 0
                }
        }),
    decreases n,
{
    if n > 0 {
        let above = set![trace.account];
        let traces = trace.children.take(n as int);
        lemma_first_sights(trace, seen, (n - 1) as nat);
        assert(traces.drop_last() =~= trace.children.take(n - 1));
        assert(traces.last() == trace.children[n - 1]);
        lemma_first_in_prefix(trace.children, above, n - 1);
        let before = pruned_list(traces.drop_last(), above, seen);
        let left = pruned_list(traces, above, seen).0;
        let sights = first_sights(trace, n);
        let earlier = first_sights(trace, (n - 1) as nat);
        assert forall|k: int| 0 <= k < left.len() implies {
            &&& same_transaction(#[trigger] left[k], sights[k])
            &&& sights[k].children.len() == 0 ==> left[k].children.len() == 0
        } by {
            if k < before.0.len() {
                assert(left[k] == before.0[k]);
                assert(sights[k] == earlier[k]);
            } else {
                assert(left[k] == pruned(traces.last(), before.1).0);
            }
        }
    }
}

/// The children that stay are exactly the first child of each account other than the
/// transaction's own, in their order: of each only what is below it is cut.
pub proof fn law_first_child_of_each_account_stays(trace: TraceView)
    ensures
        without_repeats(trace).children.len() == first_sights(trace, trace.children.len()).len(),
        forall|k: int|
            0 <= k < without_repeats(trace).children.len() ==> same_transaction(
                #[trigger] without_repeats(trace).children[k],
                first_sights(trace, trace.children.len())[k],
            ),
{
    let above = set![trace.account];
    assert(Set::<Seq<char>>::empty().insert(trace.account) =~= above);
    lemma_first_sights(
        trace,
        above.union(accounts_beside(trace.children)),
        trace.children.len(),
    );
    assert(trace.children.take(trace.children.len() as int) =~= trace.children);
}

/// Of a trace whose children have no children of their own, exactly the first child of each
/// account other than the transaction's own stays.
pub proof fn law_flat_trace_keeps_the_first_of_each_account(trace: TraceView)
    requires
        forall|i: int|
            0 <= i < trace.children.len() ==> (#[trigger] trace.children[i]).children.len() == 0,
    ensures
        without_repeats(trace) == (TraceView {
            children: first_sights(trace, trace.children.len()),
            ..trace
        }),
{
    let above = set![trace.account];
    let n = trace.children.len();
    assert(Set::<Seq<char>>::empty().insert(trace.account) =~= above);
    lemma_first_sights(trace, above.union(accounts_beside(trace.children)), n);
    assert(trace.children.take(n as int) =~= trace.children);
    let left = without_repeats(trace).children;
    assert forall|k: int| 0 <= k < left.len() implies left[k] == first_sights(trace, n)[k] by {
        lemma_sight_is_child(trace, n, k);
        assert(same_transaction(left[k], first_sights(trace, n)[k]));
        assert(left[k].children =~= first_sights(trace, n)[k].children);
    }
    assert(left =~= first_sights(trace, n));
}

/// A first sight is one of the children.
proof fn lemma_sight_is_child(trace: TraceView, n: nat, k: int) -> (i: int)
    requires
        n <= trace.children.len(),
        0 <= k < first_sights(trace, n).len(),
    ensures
        0 <= i < n,
        first_sights(trace, n)[k] == trace.children[i],
    decreases n,
{
    if k < first_sights(trace, (n - 1) as nat).len() {
        lemma_sight_is_child(trace, (n - 1) as nat, k)
    } else {
        n - 1
    }
}

/// Every account of the children, other than the transaction's own, has a first sight.
proof fn lemma_account_has_first_sight(trace: TraceView, n: nat, i: int) -> (k: int)
    requires
        0 <= i < n <= trace.children.len(),
        trace.children[i].account != trace.account,
    ensures
        0 <= k < first_sights(trace, n).len(),
        first_sights(trace, n)[k].account == trace.children[i].account,
    decreases n,
{
    if i < n - 1 {
        lemma_account_has_first_sight(trace, (n - 1) as nat, i)
    } else if first_sight(trace, i) {
        first_sights(trace, n).len() - 1
    } else {
        let j = choose|j: int|
            0 <= j < i && (#[trigger] trace.children[j]).account == trace.children[i].account;
        lemma_account_has_first_sight(trace, (n - 1) as nat, j)
    }
}

/// Every object of a list is read.
proof fn lemma_objects_are_read(items: Seq<JsonView>, i: int) -> (k: int)
    requires
        0 <= i < items.len(),
        items[i] is Object,
    ensures
        0 <= k < traces_of(items).len(),
        traces_of(items)[k] == trace_of(items[i]),
    decreases items.len(),
{
    if i == items.len() - 1 {
        traces_of(items).len() - 1
    } else {
        lemma_objects_are_read(items.drop_last(), i)
    }
}

/// Every child transaction of an answer is read, with what is below it, and where one of them
/// belongs to another account than the transaction itself, the trace that is kept and sent has a
/// child of that account.
pub proof fn law_fetched_trace_holds_its_children(
    answer: TraceResponse,
    data: JsonView,
    items: Seq<JsonView>,
    i: int,
)
    requires
        success_status(answer.status),
        json_of_bytes(answer.body@) == Ok::<JsonView, Seq<char>>(data),
        at(data, "children"@) == JsonView::Array(items),
        0 <= i < items.len(),
        items[i] is Object,
    ensures
        fetched_trace(Ok(answer)) == Ok::<TraceView, Seq<char>>(trace_of(data)),
        trace_of(data).children.contains(trace_of(items[i])),
        trace_of(items[i]).account != trace_of(data).account ==> exists|k: int|
            0 <= k < without_repeats(trace_of(data)).children.len() && (
            #[trigger] without_repeats(trace_of(data)).children[k]).account == trace_of(
                items[i],
            ).account,
{
    let trace = trace_of(data);
    let m = lemma_objects_are_read(items, i);
    assert(trace.children == traces_of(items));
    assert(trace.children[m] == trace_of(items[i]));
    if trace_of(items[i]).account != trace.account {
        let k = lemma_account_has_first_sight(trace, trace.children.len(), m);
        law_first_child_of_each_account_stays(trace);
        assert(same_transaction(
            without_repeats(trace).children[k],
            first_sights(trace, trace.children.len())[k],
        ));
    }
}

/// Places of a list of `n`, from the front to the back.
pub open spec fn ascending(places: Seq<int>, n: nat) -> bool {
    &&& forall|k: int| 0 <= k < places.len() ==> 0 <= #[trigger] places[k] < n
    &&& forall|k: int, l: int|
        0 <= k < l < places.len() ==> #[trigger] places[k] < #[trigger] places[l]
}

/// The account of the transaction at `j` is among those met before, or is that of a transaction
/// before it on its side.
pub open spec fn met_before(traces: Seq<TraceView>, met: Set<Seq<char>>, j: int) -> bool {
    met.contains(traces[j].account) || exists|i: int|
        0 <= i < j && (#[trigger] traces[i]).account == traces[j].account
}

/// The accounts of the children of a transaction.
pub open spec fn child_accounts(trace: TraceView) -> Set<Seq<char>> {
    Set::new(
        |account: Seq<char>|
            exists|i: int|
                0 <= i < trace.children.len() && (#[trigger] trace.children[i]).account == account,
    )
}

/// The result is the transaction itself with, at every depth, exactly those of its children left
/// whose account was not met before them, where those of `met` were met before the transaction.
/// Met before what is below a child are also all its siblings, and what is left below those
/// before it.
pub open spec fn drops_only_what_was_met(
    result: TraceView,
    trace: TraceView,
    met: Set<Seq<char>>,
) -> bool
    decreases result,
{
    let known = met.insert(trace.account);
    &&& same_transaction(result, trace)
    &&& exists|places: Seq<int>|
        {
            &&& #[trigger] ascending(places, trace.children.len())
            &&& places.len() == result.children.len()
            &&& forall|j: int|
                0 <= j < trace.children.len() ==> (#[trigger] places.contains(j) <==> !met_before(
                    trace.children,
                    known,
                    j,
                ))
            &&& forall|k: int| #![trigger result.children[k]]
                0 <= k < result.children.len() ==> drops_only_what_was_met(
                    result.children[k],
                    trace.children[places[k]],
                    known.union(child_accounts(trace)).union(
                        accounts_of_list(result.children.take(k)).to_set(),
                    ),
                )
        }
}

/// The result is the transaction itself with some of its children left, in their order and cut
/// in the same way, and every child that is not left belongs to one of the accounts of `left`.
pub open spec fn is_cut_of(result: TraceView, trace: TraceView, left: Seq<Seq<char>>) -> bool
    decreases result,
{
    &&& same_transaction(result, trace)
    &&& exists|places: Seq<int>|
        {
            &&& #[trigger] ascending(places, trace.children.len())
            &&& places.len() == result.children.len()
            &&& forall|j: int|
                0 <= j < trace.children.len() && !#[trigger] places.contains(j) ==> left.contains(
                    trace.children[j].account,
                )
            &&& forall|k: int| #![trigger result.children[k]]
                0 <= k < result.children.len() ==> is_cut_of(
                    result.children[k],
                    trace.children[places[k]],
                    left,
                )
        }
}

/// Where those come from that are left of the first `n` of the children of a transaction.
proof fn lemma_places(trace: TraceView, seen: Set<Seq<char>>, n: nat) -> (places: Seq<int>)
    requires
        n <= trace.children.len(),
    ensures
        ({
            let above = seen.insert(trace.account);
            let level = above.union(child_accounts(trace));
            let left = pruned_list(trace.children.take(n as int), above, level).0;
            &&& ascending(places, n)
            &&& places.len() == left.len()
            &&& forall|j: int|
                0 <= j < n ==> (#[trigger] places.contains(j) <==> !met_before(
                    trace.children,
                    above,
                    j,
                ))
            &&& forall|k: int| #![trigger left[k]]
                0 <= k < left.len() ==> left[k] == pruned(
                    trace.children[places[k]],
                    level.union(accounts_of_list(left.take(k)).to_set()),
                ).0
        }),
    decreases n,
{
    let above = seen.insert(trace.account);
    let level = above.union(child_accounts(trace));
    if n == 0 {
        Seq::empty()
    } else {
        let m = n - 1;
        let earlier = lemma_places(trace, seen, m as nat);
        let traces = trace.children.take(n as int);
        let child = trace.children[m];
        assert(traces.drop_last() =~= trace.children.take(m));
        assert(traces.last() == child);
        let before = pruned_list(traces.drop_last(), above, level);
        let left = pruned_list(traces, above, level).0;
        lemma_first_in_prefix(trace.children, above, m);
        assert(is_first(traces, above, m) == !met_before(trace.children, above, m));
        assert forall|i: int| 0 <= i < traces.drop_last().len() implies level.contains(
            (#[trigger] traces.drop_last()[i]).account,
        ) by {
            assert(trace.children[i].account == traces.drop_last()[i].account);
        }
        lemma_pruned_list(traces.drop_last(), above, level);
        let places = if is_first(traces, above, m) {
            earlier.push(m)
        } else {
            earlier
        };
        assert forall|j: int| 0 <= j < n implies (#[trigger] places.contains(j) <==> !met_before(
            trace.children,
            above,
            j,
        )) by {
            if j < m {
                assert(earlier.contains(j) <==> !met_before(trace.children, above, j));
                if earlier.contains(j) {
                    let k = choose|k: int| 0 <= k < earlier.len() && earlier[k] == j;
                    assert(places[k] == j);
                }
                if places.contains(j) {
                    let k = choose|k: int| 0 <= k < places.len() && places[k] == j;
                    assert(earlier[k] == j);
                }
            } else if is_first(traces, above, m) {
                assert(places[earlier.len() as int] == j);
            } else if places.contains(j) {
                let k = choose|k: int| 0 <= k < earlier.len() && earlier[k] == j;
                assert(earlier[k] < m);
            }
        }
        assert forall|k: int| #![trigger left[k]] 0 <= k < left.len() implies left[k] == pruned(
            trace.children[places[k]],
            level.union(accounts_of_list(left.take(k)).to_set()),
        ).0 by {
            if k < before.0.len() {
                assert(left[k] == before.0[k]);
                assert(left.take(k) =~= before.0.take(k));
            } else {
                assert(left.take(k) =~= before.0);
                assert(before.1 =~= level.union(accounts_of_list(before.0).to_set()));
            }
        }
        places
    }
}

/// The whole list of children, seen two ways.
proof fn lemma_level(trace: TraceView, seen: Set<Seq<char>>)
    ensures
        accounts_beside(trace.children) == child_accounts(trace),
        trace.children.take(trace.children.len() as int) == trace.children,
        pruned(trace, seen).0.children == pruned_list(
            trace.children,
            seen.insert(trace.account),
            seen.insert(trace.account).union(child_accounts(trace)),
        ).0,
{
    assert(accounts_beside(trace.children) =~= child_accounts(trace));
    assert(trace.children.take(trace.children.len() as int) =~= trace.children);
}

/// A trace is cut down as it should be, where some accounts were met before it.
proof fn lemma_drops_only_what_was_met(trace: TraceView, seen: Set<Seq<char>>)
    ensures
        drops_only_what_was_met(pruned(trace, seen).0, trace, seen),
    decreases trace,
{
    let result = pruned(trace, seen).0;
    let known = seen.insert(trace.account);
    lemma_level(trace, seen);
    let places = lemma_places(trace, seen, trace.children.len());
    assert(ascending(places, trace.children.len()));
    assert forall|k: int| #![trigger result.children[k]]
        0 <= k < result.children.len() implies drops_only_what_was_met(
        result.children[k],
        trace.children[places[k]],
        known.union(child_accounts(trace)).union(
            accounts_of_list(result.children.take(k)).to_set(),
        ),
    ) by {
        lemma_drops_only_what_was_met(
            trace.children[places[k]],
            known.union(child_accounts(trace)).union(
                accounts_of_list(result.children.take(k)).to_set(),
            ),
        );
    }
}

/// At every depth, exactly those transactions are missing whose own account was met before them,
/// and what is below them: their siblings stay, and so does what is below those that stay.
pub proof fn law_only_what_was_met_is_dropped(trace: TraceView)
    ensures
        drops_only_what_was_met(without_repeats(trace), trace, Set::empty()),
{
    lemma_drops_only_what_was_met(trace, Set::empty());
}

/// The accounts of the first traces of a list are among those of the list.
proof fn lemma_accounts_of_prefix(traces: Seq<TraceView>, k: int, account: Seq<char>)
    requires
        0 <= k <= traces.len(),
        accounts_of_list(traces.take(k)).contains(account),
    ensures
        accounts_of_list(traces).contains(account),
    decreases traces.len(),
{
    if k == traces.len() {
        assert(traces.take(k) =~= traces);
    } else {
        assert(traces.drop_last().take(k) =~= traces.take(k));
        lemma_accounts_of_prefix(traces.drop_last(), k, account);
        lemma_joined(accounts_of_list(traces.drop_last()), accounts_of(traces.last()));
    }
}

/// What is missing of a trace belongs to an account that is left.
proof fn lemma_is_cut_of(trace: TraceView, seen: Set<Seq<char>>, left: Seq<Seq<char>>)
    requires
        forall|a: Seq<char>| #[trigger] seen.contains(a) ==> left.contains(a),
        forall|a: Seq<char>| #[trigger]
            accounts_of(pruned(trace, seen).0).contains(a) ==> left.contains(a),
    ensures
        is_cut_of(pruned(trace, seen).0, trace, left),
    decreases trace,
{
    let result = pruned(trace, seen).0;
    let known = seen.insert(trace.account);
    let level = known.union(child_accounts(trace));
    lemma_level(trace, seen);
    lemma_own_and_below(result);
    assert(accounts_of(result).contains(trace.account));
    assert forall|i: int| 0 <= i < trace.children.len() implies level.contains(
        (#[trigger] trace.children[i]).account,
    ) by {}
    lemma_pruned_list(trace.children, known, level);
    lemma_list_is_distinct(result.children);
    let places = lemma_places(trace, seen, trace.children.len());
    assert forall|j: int| 0 <= j < trace.children.len() implies left.contains(
        (#[trigger] trace.children[j]).account,
    ) by {
        if accounts_of_list(result.children).contains(trace.children[j].account) {
            assert(accounts_of(result).contains(trace.children[j].account));
        }
    }
    assert(ascending(places, trace.children.len()));
    assert forall|k: int| #![trigger result.children[k]]
        0 <= k < result.children.len() implies is_cut_of(
        result.children[k],
        trace.children[places[k]],
        left,
    ) by {
        let met = level.union(accounts_of_list(result.children.take(k)).to_set());
        assert(result.children[k] == pruned(trace.children[places[k]], met).0);
        assert forall|a: Seq<char>| #[trigger] met.contains(a) implies left.contains(a) by {
            if child_accounts(trace).contains(a) {
                let i = choose|i: int|
                    0 <= i < trace.children.len() && (#[trigger] trace.children[i]).account == a;
            } else if !known.contains(a) {
                lemma_accounts_of_prefix(result.children, k, a);
                assert(accounts_of(result).contains(a));
            }
        }
        assert forall|a: Seq<char>| #[trigger]
            accounts_of(result.children[k]).contains(a) implies left.contains(a) by {
            assert(accounts_of_list(result.children).contains(a));
            assert(accounts_of(result).contains(a));
        }
        lemma_is_cut_of(trace.children[places[k]], met, left);
    }
}

/// At every depth, a transaction whose parent stays is missing only where another transaction of
/// its account is left: no account is lost below a transaction that stays.
pub proof fn law_no_account_is_lost_below_what_stays(trace: TraceView)
    ensures
        is_cut_of(without_repeats(trace), trace, accounts_of(without_repeats(trace))),
{
    lemma_is_cut_of(trace, Set::empty(), accounts_of(without_repeats(trace)));
}

/// In a trace that the trace service gave, each account occurs once in the whole of what is
/// kept and sent of it.
pub proof fn law_fetched_trace_has_each_account_once(response: Result<TraceResponse, String>)
    requires
        fetched_trace(response) is Ok,
    ensures
        accounts_of(without_repeats(fetched_trace(response)->Ok_0)).no_duplicates(),
{
    law_result_has_each_account_once(fetched_trace(response)->Ok_0);
}

/// A trace that was received is found again, and no other trace is touched by it.
pub proof fn law_received_trace_is_kept(
    service: TraceServiceView,
    tx_hash: Seq<char>,
    other: Seq<char>,
    trace: TraceView,
)
    ensures
        kept_trace(with_trace(service, tx_hash, trace), tx_hash) == Some(trace),
        other != tx_hash ==> kept_trace(with_trace(service, tx_hash, trace), other) == kept_trace(
            service,
            other,
        ),
        trace_request(with_trace(service, tx_hash, trace), other) == trace_request(service, other),
{
}

/// A service that keeps no trace keeps none in which an account occurs twice.
pub proof fn law_empty_service_keeps_each_account_once(service: TraceServiceView)
    requires
        service.cache == Map::<Seq<char>, TraceView>::empty(),
    ensures
        keeps_each_account_once(service),
{
}

/// A service in whose traces each account occurs once is still such a service when it has
/// taken an answer.
pub proof fn law_kept_traces_have_each_account_once(
    service: TraceServiceView,
    tx_hash: Seq<char>,
    response: Result<TraceResponse, String>,
)
    requires
        keeps_each_account_once(service),
        fetched_trace(response) is Ok,
    ensures
        keeps_each_account_once(
            with_trace(service, tx_hash, without_repeats(fetched_trace(response)->Ok_0)),
        ),
{
    law_fetched_trace_has_each_account_once(response);
}

/// What an answer comes to: a failure where it did not come, where its status is not one of the
/// two hundreds, or where its body is no document; else the trace that is read field by field.
pub proof fn law_answer_comes_to_its_trace(answer: TraceResponse, error: String)
    ensures
        fetched_trace(Err(error)) == Err::<TraceView, Seq<char>>(error@),
        answer.status < 200 || answer.status > 299 ==> fetched_trace(Ok(answer)) == Err::<
            TraceView,
            Seq<char>,
        >("API request failed with status: "@ + answer.status_text@),
        200 <= answer.status <= 299 ==> match json_of_bytes(answer.body@) {
            Ok(data) => fetched_trace(Ok(answer)) is Ok && reads_trace(
                fetched_trace(Ok(answer))->Ok_0,
                data,
            ),
            Err(_) => fetched_trace(Ok(answer)) == Err::<TraceView, Seq<char>>(
                "error decoding response body"@,
            ),
        },
{
    if let Ok(data) = json_of_bytes(answer.body@) {
        law_trace_is_read(data);
    }
}

/// A trace is asked for by the hash of its transaction, below the endpoint, with the key where
/// there is one. Two transactions are never asked for by the same address.
pub proof fn law_trace_is_asked_for_by_its_hash(
    service: TraceServiceView,
    tx_hash: Seq<char>,
    other: Seq<char>,
)
    ensures
        trace_request(service, tx_hash).url == service.api_endpoint + "/v2/traces/"@ + tx_hash,
        match service.api_key {
            Some(key) => trace_request(service, tx_hash).authorization == Some("Bearer "@ + key),
            None => trace_request(service, tx_hash).authorization is None,
        },
        other != tx_hash ==> trace_request(service, tx_hash).url != trace_request(
            service,
            other,
        ).url,
{
    let start = service.api_endpoint + "/v2/traces/"@;
    if other != tx_hash && start + tx_hash == start + other {
        let n = start.len() as int;
        let first = start + tx_hash;
        let second = start + other;
        assert(first.len() == second.len());
        assert(tx_hash =~= first.subrange(n, first.len() as int));
        assert(other =~= second.subrange(n, second.len() as int));
    }
}

/// A trace is found exactly where one is kept under the hash, and keeping one adds it under its
/// hash and leaves all others, the endpoint and the key alone.
pub proof fn law_traces_are_kept_by_hash(
    service: TraceServiceView,
    tx_hash: Seq<char>,
    other: Seq<char>,
    trace: TraceView,
)
    ensures
        kept_trace(service, tx_hash) is Some <==> service.cache.contains_key(tx_hash),
        service.cache.contains_key(tx_hash) ==> kept_trace(service, tx_hash) == Some(
            service.cache[tx_hash],
        ),
        with_trace(service, tx_hash, trace).cache.contains_key(other) <==> other == tx_hash
            || service.cache.contains_key(other),
        with_trace(service, tx_hash, trace).cache[tx_hash] == trace,
        other != tx_hash && service.cache.contains_key(other) ==> with_trace(
            service,
            tx_hash,
            trace,
        ).cache[other] == service.cache[other],
        with_trace(service, tx_hash, trace).api_endpoint == service.api_endpoint,
        with_trace(service, tx_hash, trace).api_key == service.api_key,
{
}

/// The accounts of a trace are its own and, after it, those of its children, one child after
/// another.
pub proof fn law_accounts_go_one_by_one(
    trace: TraceView,
    first: Seq<TraceView>,
    second: Seq<TraceView>,
)
    ensures
        accounts_of(trace).len() > 0,
        accounts_of(trace)[0] == trace.account,
        accounts_of(trace).skip(1) == accounts_of_list(trace.children),
        accounts_of_list(seq![trace]) == accounts_of(trace),
        accounts_of_list(first + second) == accounts_of_list(first) + accounts_of_list(second),
    decreases second.len(),
{
    assert(accounts_of(trace).skip(1) =~= accounts_of_list(trace.children));
    let none = Seq::<TraceView>::empty();
    assert(seq![trace].drop_last() =~= none);
    assert(accounts_of_list(none) =~= Seq::empty());
    assert(accounts_of_list(seq![trace]) =~= accounts_of(trace));
    if second.len() > 0 {
        law_accounts_go_one_by_one(trace, first, second.drop_last());
        assert((first + second).drop_last() =~= first + second.drop_last());
    } else {
        assert(first + second =~= first);
    }
    assert(accounts_of_list(first + second) =~= accounts_of_list(first) + accounts_of_list(
        second,
    ));
}

/// Requests and results are spoken of by all their fields.
pub proof fn law_requests_are_shown_whole(
    request: TraceRequest,
    trace: TransactionTrace,
    error: String,
)
    ensures
        request@.url == request.url@,
        request@.authorization == opt_text(request.authorization),
        trace_result(Ok(trace)) == Ok::<TraceView, Seq<char>>(trace@),
        trace_result(Err(error)) == Err::<TraceView, Seq<char>>(error@),
{
}

} // verus!
