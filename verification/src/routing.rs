//! Routing instructions: `id1,id2,...,idN,<message>`, and the plan by which
//! a writer delivers one.

use crate::frame::{pack_frame, text_frame};
use crate::registry::{ClientRegistry, ConnectedClient};
use crate::text::{parse_decimal, parse_u32, split, split_bytes, views};
use vstd::prelude::*;
use vstd::string::*;
use vstd::utf8::*;

verus! {

/// The comma that parts the fields of an instruction.
pub const FIELD_SEPARATOR: u8 = 0x2c;

/// A message and the ids of the clients that it goes to.
#[derive(Debug, PartialEq, Eq)]
pub struct RoutingInstruction {
    pub destinations: Vec<u32>,
    pub body: Vec<u8>,
}

/// Why an instruction is refused.
#[derive(Clone, Copy, Debug, PartialEq, Eq, Structural)]
pub enum RoutingError {
    /// A field before the last is not a 32-bit unsigned decimal number.
    InvalidDestination,
}

/// What a writer does for one destination of an instruction.
#[derive(Clone, Copy, Debug, PartialEq, Eq, Structural)]
pub enum DeliveryStep {
    /// The client is registered: write the frame to it.
    Send(u32),
    /// No client is registered under the id: report it and go on.
    Skip(u32),
}

/// What a writer does after a write to one destination.
#[derive(Clone, Copy, Debug, PartialEq, Eq, Structural)]
pub enum WriteFollowUp {
    /// The write went through: go on with the next destination.
    Proceed,
    /// The write failed: shut that client's socket down, then go on with the
    /// next destination.
    ShutDown(u32),
}

/// The frame of an instruction, encoded once, and a step for each
/// destination in the order of the instruction.
#[derive(Debug, PartialEq, Eq)]
pub struct DeliveryPlan {
    pub frame: Vec<u8>,
    pub steps: Vec<DeliveryStep>,
}

/// The fields of an instruction that name destinations: all but the last.
pub open spec fn destination_fields(text: Seq<u8>) -> Seq<Seq<u8>> {
    split(text, FIELD_SEPARATOR).drop_last()
}

/// The message of an instruction: its last field, verbatim.
pub open spec fn message_body(text: Seq<u8>) -> Seq<u8> {
    split(text, FIELD_SEPARATOR).last()
}

/// Whether every destination field is a 32-bit unsigned decimal number.
pub open spec fn destinations_valid(text: Seq<u8>) -> bool {
    forall|i: int|
        0 <= i < destination_fields(text).len() ==> parse_u32(
            #[trigger] destination_fields(text)[i],
        ) is Some
}

/// The destination ids of an instruction, in order.
pub open spec fn destinations(text: Seq<u8>) -> Seq<u32> {
    Seq::new(
        destination_fields(text).len(),
        |i: int| parse_u32(destination_fields(text)[i])->0,
    )
}

/// The step for one destination: send if it is registered, skip if not.
pub open spec fn step_for<H>(clients: Map<u32, ConnectedClient<H>>, id: u32) -> DeliveryStep {
    if clients.contains_key(id) {
        DeliveryStep::Send(id)
    } else {
        DeliveryStep::Skip(id)
    }
}

/// The steps of a delivery: one for each destination, in order.
pub open spec fn delivery_steps<H>(
    clients: Map<u32, ConnectedClient<H>>,
    destinations: Seq<u32>,
) -> Seq<DeliveryStep> {
    Seq::new(destinations.len(), |i: int| step_for(clients, destinations[i]))
}

/// Parses the bytes of an instruction.
pub fn parse_instruction_bytes(text: &[u8]) -> (r: Result<RoutingInstruction, RoutingError>)
    ensures
        match r {
            Ok(instruction) => {
                &&& destinations_valid(text@)
                &&& instruction.destinations@ == destinations(text@)
                &&& instruction.body@ == message_body(text@)
            },
            Err(e) => !destinations_valid(text@) && e == RoutingError::InvalidDestination,
        },
{
    let mut fields = split_bytes(text, FIELD_SEPARATOR);
    let ghost whole = views(fields@);
    let body = match fields.pop() {
        Some(body) => body,
        None => { return Err(RoutingError::InvalidDestination); },
    };
    assert(body@ == whole.last());
    assert(views(fields@) =~= destination_fields(text@));
    let n: usize = fields.len();
    let mut ids: Vec<u32> = Vec::new();
    let mut i: usize = 0;
    while i < n
        invariant
            i <= n,
            n == fields@.len(),
            views(fields@) == destination_fields(text@),
            ids@.len() == i,
            forall|j: int|
                0 <= j < i ==> parse_u32(#[trigger] destination_fields(text@)[j]) == Some(ids@[j]),
        decreases n - i,
    {
        assert(views(fields@)[i as int] == fields@[i as int]@);
        match parse_decimal(fields[i].as_slice()) {
            Some(id) => {
                ids.push(id);
            },
            None => {
                return Err(RoutingError::InvalidDestination);
            },
        }
        i += 1;
    }
    assert(ids@ =~= destinations(text@));
    Ok(RoutingInstruction { destinations: ids, body })
}

/// Parses an instruction: every field but the last is a destination id, the
/// last is the message. An instruction without a comma has no destination.
pub fn parse_instruction(text: &str) -> (r: Result<RoutingInstruction, RoutingError>)
    ensures
        match r {
            Ok(instruction) => {
                &&& destinations_valid(encode_utf8(text@))
                &&& instruction.destinations@ == destinations(encode_utf8(text@))
                &&& instruction.body@ == message_body(encode_utf8(text@))
            },
            Err(e) => !destinations_valid(encode_utf8(text@)) && e
                == RoutingError::InvalidDestination,
        },
{
    parse_instruction_bytes(text.as_bytes())
}

/// Plans the delivery of an instruction: encodes the message once, and
/// decides for each destination, in order, whether it is written to or
/// skipped. One destination does not affect another.
pub fn plan_delivery<H>(instruction: &RoutingInstruction, registry: &ClientRegistry<H>) -> (plan:
    DeliveryPlan)
    ensures
        plan.frame@ == text_frame(instruction.body@),
        plan.steps@ == delivery_steps(registry@, instruction.destinations@),
{
    let frame = pack_frame(instruction.body.as_slice());
    let n: usize = instruction.destinations.len();
    let mut steps: Vec<DeliveryStep> = Vec::new();
    let mut i: usize = 0;
    while i < n
        invariant
            i <= n,
            n == instruction.destinations@.len(),
            steps@.len() == i,
            forall|j: int|
                0 <= j < i ==> #[trigger] steps@[j] == step_for(
                    registry@,
                    instruction.destinations@[j],
                ),
        decreases n - i,
    {
        let id: u32 = instruction.destinations[i];
        if registry.contains(id) {
            steps.push(DeliveryStep::Send(id));
        } else {
            steps.push(DeliveryStep::Skip(id));
        }
        i += 1;
    }
    assert(steps@ =~= delivery_steps(registry@, instruction.destinations@));
    DeliveryPlan { frame, steps }
}

/// Fan-out: a client is written to exactly if it is named in the
/// instruction and registered, and an id is skipped exactly if it is named
/// and not registered. A registered client that is not named gets nothing.
pub proof fn lemma_fan_out<H>(
    clients: Map<u32, ConnectedClient<H>>,
    destinations: Seq<u32>,
    id: u32,
)
    ensures
        delivery_steps(clients, destinations).contains(DeliveryStep::Send(id))
            <==> destinations.contains(id) && clients.contains_key(id),
        delivery_steps(clients, destinations).contains(DeliveryStep::Skip(id))
            <==> destinations.contains(id) && !clients.contains_key(id),
{
    let steps = delivery_steps(clients, destinations);
    if destinations.contains(id) {
        let i = choose|i: int| 0 <= i < destinations.len() && destinations[i] == id;
        assert(steps[i] == step_for(clients, id));
    }
    if steps.contains(DeliveryStep::Send(id)) {
        let i = choose|i: int| 0 <= i < steps.len() && steps[i] == DeliveryStep::Send(id);
        assert(destinations[i] == id);
    }
    if steps.contains(DeliveryStep::Skip(id)) {
        let i = choose|i: int| 0 <= i < steps.len() && steps[i] == DeliveryStep::Skip(id);
        assert(destinations[i] == id);
    }
}

/// Decides what follows a write to client `id`: a failed write costs that
/// client its socket and nobody else anything.
pub fn after_write(id: u32, succeeded: bool) -> (next: WriteFollowUp)
    ensures
        next == if succeeded {
            WriteFollowUp::Proceed
        } else {
            WriteFollowUp::ShutDown(id)
        },
{
    if succeeded {
        WriteFollowUp::Proceed
    } else {
        WriteFollowUp::ShutDown(id)
    }
}

} // verus!
