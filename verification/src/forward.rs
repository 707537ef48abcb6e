//! What a forwarding server decides. A request is answered at once, or its
//! questions are sent to an upstream resolver one by one and the replies are
//! gathered into one response. Nothing here sends or receives: the caller
//! does what an [`Action`] says and comes back with the reply.

use crate::header::{DnsHeader, ResultCode};
use crate::packet::{counted, questions_view, records_view, DnsPacket, PacketView};
use crate::query::{DnsQuestion, QuestionView};
use vstd::prelude::*;

verus! {

/// A request whose questions are being forwarded: the request, the response
/// as far as it has been gathered, and the number of questions that were
/// answered.
pub struct Relay {
    request: DnsPacket,
    response: DnsPacket,
    answered: usize,
}

/// What a relay holds.
pub struct RelayView {
    pub request: PacketView,
    pub response: PacketView,
    pub answered: nat,
}

impl View for Relay {
    type V = RelayView;

    closed spec fn view(&self) -> RelayView {
        RelayView {
            request: self.request@,
            response: self.response@,
            answered: self.answered as nat,
        }
    }
}

/// What the caller is to do next.
pub enum Action {
    /// Send `query` to the upstream resolver, wait for the reply, and hand it
    /// to `relay`.
    Forward { query: DnsPacket, relay: Relay },
    /// Send the response to the client. The request is done with.
    Respond(DnsPacket),
}

/// What an action holds.
pub enum ActionView {
    Forward { query: PacketView, relay: RelayView },
    Respond(PacketView),
}

impl View for Action {
    type V = ActionView;

    open spec fn view(&self) -> ActionView {
        match *self {
            Action::Forward { query, relay } => ActionView::Forward {
                query: query@,
                relay: relay@,
            },
            Action::Respond(response) => ActionView::Respond(response@),
        }
    }
}

/// The header that a response to `request` starts from: the id, the opcode
/// and the flags for recursion desired, checking disabled and authenticated
/// data are those of the request; the response and recursion-available flags
/// are up; all else is zero.
pub open spec fn response_header(request: DnsHeader) -> DnsHeader {
    DnsHeader {
        id: request.id,
        response: true,
        opcode: request.opcode,
        recursion_desired: request.recursion_desired,
        recursion_available: true,
        checking_disabled: request.checking_disabled,
        authed_data: request.authed_data,
        ..DnsHeader::zeroed()
    }
}

/// A message with the header `header` and no entries.
pub open spec fn bare(header: DnsHeader) -> PacketView {
    PacketView { header, questions: seq![], answers: seq![], authorities: seq![], resources: seq![] }
}

/// The query that carries the one question `question` upstream under the id
/// `id`.
pub open spec fn query_for(id: u16, question: QuestionView) -> PacketView {
    PacketView { questions: seq![question], ..bare(DnsHeader { id, ..DnsHeader::zeroed() }) }
}

/// The response with the four sections of `reply` appended to its own.
pub open spec fn merged(response: PacketView, reply: PacketView) -> PacketView {
    PacketView {
        header: response.header,
        questions: response.questions + reply.questions,
        answers: response.answers + reply.answers,
        authorities: response.authorities + reply.authorities,
        resources: response.resources + reply.resources,
    }
}

/// The response as it goes out once every question was answered: the four
/// counts are the sizes of the sections, the result code is `NOERROR`.
pub open spec fn finished(response: PacketView) -> PacketView {
    PacketView {
        header: DnsHeader { rescode: ResultCode::NOERROR, ..counted(response) },
        ..response
    }
}

/// What is done with a request that has just been decoded.
///
/// A request with an opcode other than 0 is answered at once with `NOTIMP`,
/// and one without questions with an empty response; neither is forwarded.
/// Of any other request the first question goes upstream.
pub open spec fn first_action(request: PacketView) -> ActionView {
    let base = bare(response_header(request.header));
    if request.header.opcode != 0 {
        ActionView::Respond(bare(DnsHeader { rescode: ResultCode::NOTIMP, ..base.header }))
    } else if request.questions.len() == 0 {
        ActionView::Respond(base)
    } else {
        ActionView::Forward {
            query: query_for(request.header.id, request.questions[0]),
            relay: RelayView { request, response: base, answered: 0 },
        }
    }
}

/// What is done once the upstream resolver has replied: the reply is merged
/// into the response; the next question goes upstream where there is one,
/// and else the response goes out.
pub open spec fn next_action(relay: RelayView, reply: PacketView) -> ActionView {
    let response = merged(relay.response, reply);
    if relay.answered + 1 < relay.request.questions.len() {
        ActionView::Forward {
            query: query_for(
                relay.request.header.id,
                relay.request.questions[relay.answered as int + 1],
            ),
            relay: RelayView {
                request: relay.request,
                response,
                answered: (relay.answered + 1) as nat,
            },
        }
    } else {
        ActionView::Respond(finished(response))
    }
}

/// The query that carries `question` upstream under the id `id`.
fn make_query(id: u16, question: &DnsQuestion) -> (query: DnsPacket)
    ensures
        query@ == query_for(id, question@),
{
    let mut query = DnsPacket::new();
    query.questions.push(question.clone());
    query.header.id = id;
    proof {
        assert(questions_view(query.questions@) =~= seq![question@]);
    }
    query
}

/// Takes up a decoded request: says whether it is answered at once or
/// forwarded, and with what.
pub fn start(request: DnsPacket) -> (action: Action)
    ensures
        action@ == first_action(request@),
{
    let mut response = DnsPacket::new();
    response.header.id = request.header.id;
    response.header.response = true;
    response.header.opcode = request.header.opcode;
    response.header.authoritative_answer = false;
    response.header.truncated_message = false;
    response.header.recursion_desired = request.header.recursion_desired;
    response.header.recursion_available = true;
    response.header.z = false;
    response.header.checking_disabled = request.header.checking_disabled;
    response.header.authed_data = request.header.authed_data;

    if request.header.opcode != 0 {
        response.header.rescode = ResultCode::NOTIMP;
        Action::Respond(response)
    } else if request.questions.len() == 0 {
        Action::Respond(response)
    } else {
        let query = make_query(request.header.id, &request.questions[0]);
        Action::Forward { query, relay: Relay { request, response, answered: 0 } }
    }
}

impl Relay {
    /// Takes the decoded reply of the upstream resolver to the query that
    /// was last forwarded, and says what to do next.
    pub fn on_reply(self, reply: DnsPacket) -> (action: Action)
        ensures
            action@ == next_action(self@, reply@),
    {
        let Relay { request, mut response, answered } = self;
        let mut reply = reply;
        proof {
            assert(questions_view(response.questions@ + reply.questions@) =~= questions_view(
                response.questions@,
            ) + questions_view(reply.questions@));
            assert(records_view(response.answers@ + reply.answers@) =~= records_view(
                response.answers@,
            ) + records_view(reply.answers@));
            assert(records_view(response.authorities@ + reply.authorities@) =~= records_view(
                response.authorities@,
            ) + records_view(reply.authorities@));
            assert(records_view(response.resources@ + reply.resources@) =~= records_view(
                response.resources@,
            ) + records_view(reply.resources@));
        }
        response.questions.append(&mut reply.questions);
        response.answers.append(&mut reply.answers);
        response.authorities.append(&mut reply.authorities);
        response.resources.append(&mut reply.resources);

        if answered < request.questions.len() && answered + 1 < request.questions.len() {
            let query = make_query(request.header.id, &request.questions[answered + 1]);
            Action::Forward { query, relay: Relay { request, response, answered: answered + 1 } }
        } else {
            response.header.questions = (response.questions.len() % 0x1_0000) as u16;
            response.header.answers = (response.answers.len() % 0x1_0000) as u16;
            response.header.authoritative_entries = (response.authorities.len() % 0x1_0000) as u16;
            response.header.resource_entries = (response.resources.len() % 0x1_0000) as u16;
            response.header.rescode = ResultCode::NOERROR;
            Action::Respond(response)
        }
    }
}

/// A request with an opcode other than 0 is never forwarded: it is answered
/// at once, with `NOTIMP`, under its own id.
pub proof fn lemma_other_opcodes_are_refused(request: PacketView)
    requires
        request.header.opcode != 0,
    ensures
        first_action(request) matches ActionView::Respond(response) && response.header.rescode
            == ResultCode::NOTIMP && response.header.id == request.header.id
            && response.header.response,
{
}

/// A standard query with one question takes one round trip: the question
/// goes upstream under the id of the request, and the response that goes out
/// after the reply carries that id, the result code `NOERROR`, and in each
/// section what the reply had there, with the counts to match.
pub proof fn lemma_single_question_is_relayed(request: PacketView, reply: PacketView)
    requires
        request.header.opcode == 0,
        request.questions.len() == 1,
    ensures
        first_action(request) matches ActionView::Forward { query, relay } && query == query_for(
            request.header.id,
            request.questions[0],
        ) && (next_action(relay, reply) matches ActionView::Respond(response) && response.header.id
            == request.header.id && response.header.rescode == ResultCode::NOERROR
            && response.questions == reply.questions && response.answers == reply.answers
            && response.authorities == reply.authorities && response.resources == reply.resources
            && response.header == (DnsHeader {
            rescode: ResultCode::NOERROR,
            ..counted(reply)
        }).with_flags_of(response_header(request.header))),
{
    let relay = first_action(request)->Forward_relay;
    let response = next_action(relay, reply)->Respond_0;
}

} // verus!
