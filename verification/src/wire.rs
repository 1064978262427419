//! The JSON wire form of commands and updates.
//!
//! Every message travels as one text frame holding one JSON object with a
//! single member, whose key names the variant:
//!
//! * commands: `{"UpdateInterval": ms}`, `{"Watch": [address, ...]}`,
//!   `{"SetRegister": {"address": a, "value": v}}`, `{"Halt": null}`,
//!   `{"Run": null}`;
//! * updates: `{"Registers": {"registers": [{"address": a, "value": v}, ...]}}`,
//!   `{"Halted": null}`, `{"Running": null}`.
//!
//! Decoding accepts any JSON text of these shapes, whatever its whitespace and
//! the order of the members of a register. Encoding writes the compact form.

use vstd::prelude::*;
use vstd::string::StringExecFns;
use crate::json::{lemma_array_view, lemma_object_view, parse_json, parsed_json, Json, JsonValue};
use crate::message::{Command, CommandView, Register, Registers, Update, UpdateView};

verus! {

/// Why an inbound payload was dropped.
#[derive(Clone, Copy, Debug, PartialEq, Eq, Structural)]
pub enum ProtocolError {
    /// The text is not JSON.
    Syntax,
    /// The text is JSON, but not of the shape of any message.
    Shape,
}

/// The number that a document holds, where it is one that fits 32 bits.
pub open spec fn u32_of_json(json: JsonValue) -> Option<u32> {
    match json {
        JsonValue::Number(Some(n)) => if n <= u32::MAX {
            Some(n as u32)
        } else {
            None
        },
        _ => None,
    }
}

/// The register that a document holds: an object of exactly the two members
/// `address` and `value`, in either order, both fitting 32 bits.
pub open spec fn register_of_json(json: JsonValue) -> Option<Register> {
    match json {
        JsonValue::Object(members) => {
            if members.len() != 2 {
                None
            } else if members[0].0 == "address"@ && members[1].0 == "value"@ {
                register_of_parts(u32_of_json(members[0].1), u32_of_json(members[1].1))
            } else if members[0].0 == "value"@ && members[1].0 == "address"@ {
                register_of_parts(u32_of_json(members[1].1), u32_of_json(members[0].1))
            } else {
                None
            }
        },
        _ => None,
    }
}

/// A register from its two parts, where both are there.
pub open spec fn register_of_parts(address: Option<u32>, value: Option<u32>) -> Option<Register> {
    match (address, value) {
        (Some(address), Some(value)) => Some(Register { address, value }),
        _ => None,
    }
}

/// The addresses that a list of documents holds, where each is a 32-bit number.
pub open spec fn addresses_of_json(items: Seq<JsonValue>) -> Option<Seq<u32>> {
    if forall|i: int| 0 <= i < items.len() ==> (#[trigger] u32_of_json(items[i])) is Some {
        Some(Seq::new(items.len(), |i: int| u32_of_json(items[i]).unwrap()))
    } else {
        None
    }
}

/// The registers that a list of documents holds, where each is a register.
pub open spec fn registers_of_json(items: Seq<JsonValue>) -> Option<Seq<Register>> {
    if forall|i: int| 0 <= i < items.len() ==> (#[trigger] register_of_json(items[i])) is Some {
        Some(Seq::new(items.len(), |i: int| register_of_json(items[i]).unwrap()))
    } else {
        None
    }
}

/// The command that a document holds, if it has the shape of one.
pub open spec fn command_of_json(json: JsonValue) -> Option<CommandView> {
    match json {
        JsonValue::Object(members) => {
            if members.len() != 1 {
                None
            } else if members[0].0 == "UpdateInterval"@ {
                match members[0].1 {
                    JsonValue::Number(Some(ms)) => Some(CommandView::UpdateInterval(ms)),
                    _ => None,
                }
            } else if members[0].0 == "Watch"@ {
                match members[0].1 {
                    JsonValue::Array(items) => match addresses_of_json(items) {
                        Some(addresses) => Some(CommandView::Watch(addresses)),
                        None => None,
                    },
                    _ => None,
                }
            } else if members[0].0 == "SetRegister"@ {
                match register_of_json(members[0].1) {
                    Some(register) => Some(CommandView::SetRegister(register)),
                    None => None,
                }
            } else if members[0].0 == "Halt"@ {
                if members[0].1 is Null {
                    Some(CommandView::Halt)
                } else {
                    None
                }
            } else if members[0].0 == "Run"@ {
                if members[0].1 is Null {
                    Some(CommandView::Run)
                } else {
                    None
                }
            } else {
                None
            }
        },
        _ => None,
    }
}

/// What decoding a text as a command gives: the command, or the reason why
/// the text holds none.
pub open spec fn decoded_command(text: Seq<char>) -> Result<CommandView, ProtocolError> {
    match parsed_json(text) {
        None => Err(ProtocolError::Syntax),
        Some(json) => match command_of_json(json) {
            Some(command) => Ok(command),
            None => Err(ProtocolError::Shape),
        },
    }
}

/// The snapshot that the body of a `Registers` update holds: an object whose
/// one member, `registers`, is an array of registers.
pub open spec fn snapshot_of_json(body: JsonValue) -> Option<Seq<Register>> {
    match body {
        JsonValue::Object(inner) => {
            if inner.len() == 1 && inner[0].0 == "registers"@ {
                match inner[0].1 {
                    JsonValue::Array(items) => registers_of_json(items),
                    _ => None,
                }
            } else {
                None
            }
        },
        _ => None,
    }
}

/// The update that a document holds, if it has the shape of one.
pub open spec fn update_of_json(json: JsonValue) -> Option<UpdateView> {
    match json {
        JsonValue::Object(members) => {
            if members.len() != 1 {
                None
            } else if members[0].0 == "Registers"@ {
                match snapshot_of_json(members[0].1) {
                    Some(registers) => Some(UpdateView::Registers(registers)),
                    None => None,
                }
            } else if members[0].0 == "Halted"@ {
                if members[0].1 is Null {
                    Some(UpdateView::Halted)
                } else {
                    None
                }
            } else if members[0].0 == "Running"@ {
                if members[0].1 is Null {
                    Some(UpdateView::Running)
                } else {
                    None
                }
            } else {
                None
            }
        },
        _ => None,
    }
}

/// What decoding a text as an update gives: the update, or the reason why the
/// text holds none.
pub open spec fn decoded_update(text: Seq<char>) -> Result<UpdateView, ProtocolError> {
    match parsed_json(text) {
        None => Err(ProtocolError::Syntax),
        Some(json) => match update_of_json(json) {
            Some(update) => Ok(update),
            None => Err(ProtocolError::Shape),
        },
    }
}

/// Whether a text and a literal hold the same characters.
fn text_is(text: &String, literal: &str) -> (same: bool)
    ensures
        same == (text@ == literal@),
{
    let other = String::from_str(literal);
    text.eq(&other)
}

/// Reads a 32-bit number from a document.
pub fn u32_from_json(json: &Json) -> (number: Option<u32>)
    ensures
        number == u32_of_json(json@),
{
    match json {
        Json::Number(Some(n)) => {
            if *n <= 0xffff_ffff {
                Some(*n as u32)
            } else {
                None
            }
        },
        _ => None,
    }
}

/// Reads a register from a document.
pub fn register_from_json(json: &Json) -> (register: Option<Register>)
    ensures
        register == register_of_json(json@),
{
    match json {
        Json::Object(members) => {
            proof {
                lemma_object_view(json);
            }
            if members.len() != 2 {
                return None;
            }
            let first = &members[0];
            let second = &members[1];
            let (address, value) = if text_is(&first.0, "address") && text_is(&second.0, "value") {
                (u32_from_json(&first.1), u32_from_json(&second.1))
            } else if text_is(&first.0, "value") && text_is(&second.0, "address") {
                (u32_from_json(&second.1), u32_from_json(&first.1))
            } else {
                return None;
            };
            match (address, value) {
                (Some(address), Some(value)) => Some(Register { address, value }),
                _ => None,
            }
        },
        _ => None,
    }
}

/// Reads a list of addresses from the items of an array.
fn addresses_from_items(items: &Vec<Json>) -> (addresses: Option<Vec<u32>>)
    ensures
        match addresses {
            Some(list) => addresses_of_json(items@.map_values(|j: Json| j@)) == Some(list@),
            None => addresses_of_json(items@.map_values(|j: Json| j@)) is None,
        },
{
    let ghost docs = items@.map_values(|j: Json| j@);
    let mut list: Vec<u32> = Vec::new();
    let mut i: usize = 0;
    while i < items.len()
        invariant
            i <= items.len(),
            docs == items@.map_values(|j: Json| j@),
            list@.len() == i,
            forall|k: int| 0 <= k < i ==> (#[trigger] u32_of_json(docs[k])) == Some(list@[k]),
        decreases items.len() - i,
    {
        match u32_from_json(&items[i]) {
            Some(address) => {
                list.push(address);
            },
            None => {
                assert(u32_of_json(docs[i as int]) is None);
                return None;
            },
        }
        i += 1;
    }
    assert(list@ =~= Seq::new(docs.len(), |k: int| u32_of_json(docs[k]).unwrap()));
    Some(list)
}

/// Reads a command from a document.
///
/// Gives the command where the document has the shape of one, and
/// [`ProtocolError::Shape`] where it has not.
pub fn command_from_json(json: &Json) -> (command: Result<Command, ProtocolError>)
    ensures
        match command {
            Ok(c) => command_of_json(json@) == Some(c@),
            Err(e) => e == ProtocolError::Shape && command_of_json(json@) is None,
        },
{
    match json {
        Json::Object(members) => {
            proof {
                lemma_object_view(json);
            }
            if members.len() != 1 {
                return Err(ProtocolError::Shape);
            }
            let tag = &members[0].0;
            let body = &members[0].1;
            if text_is(tag, "UpdateInterval") {
                match body {
                    Json::Number(Some(ms)) => Ok(Command::UpdateInterval(*ms)),
                    _ => Err(ProtocolError::Shape),
                }
            } else if text_is(tag, "Watch") {
                match body {
                    Json::Array(items) => {
                        proof {
                            lemma_array_view(body);
                            assert(body@->Array_0 =~= items@.map_values(|j: Json| j@));
                        }
                        match addresses_from_items(items) {
                            Some(addresses) => Ok(Command::Watch(addresses)),
                            None => Err(ProtocolError::Shape),
                        }
                    },
                    _ => Err(ProtocolError::Shape),
                }
            } else if text_is(tag, "SetRegister") {
                match register_from_json(body) {
                    Some(register) => Ok(Command::SetRegister(register)),
                    None => Err(ProtocolError::Shape),
                }
            } else if text_is(tag, "Halt") {
                match body {
                    Json::Null => Ok(Command::Halt),
                    _ => Err(ProtocolError::Shape),
                }
            } else if text_is(tag, "Run") {
                match body {
                    Json::Null => Ok(Command::Run),
                    _ => Err(ProtocolError::Shape),
                }
            } else {
                Err(ProtocolError::Shape)
            }
        },
        _ => Err(ProtocolError::Shape),
    }
}

/// Decodes one inbound text frame as a command.
///
/// Gives [`ProtocolError::Syntax`] exactly where the text is not JSON, and
/// [`ProtocolError::Shape`] exactly where it is JSON of another shape.
pub fn decode_command(text: &str) -> (command: Result<Command, ProtocolError>)
    ensures
        match command {
            Ok(c) => decoded_command(text@) == Ok::<CommandView, ProtocolError>(c@),
            Err(e) => decoded_command(text@) == Err::<CommandView, ProtocolError>(e),
        },
{
    match parse_json(text) {
        Some(json) => command_from_json(&json),
        None => Err(ProtocolError::Syntax),
    }
}

/// Reads a list of registers from the items of an array.
fn registers_from_items(items: &Vec<Json>) -> (registers: Option<Vec<Register>>)
    ensures
        match registers {
            Some(list) => registers_of_json(items@.map_values(|j: Json| j@)) == Some(list@),
            None => registers_of_json(items@.map_values(|j: Json| j@)) is None,
        },
{
    let ghost docs = items@.map_values(|j: Json| j@);
    let mut list: Vec<Register> = Vec::new();
    let mut i: usize = 0;
    while i < items.len()
        invariant
            i <= items.len(),
            docs == items@.map_values(|j: Json| j@),
            list@.len() == i,
            forall|k: int| 0 <= k < i ==> (#[trigger] register_of_json(docs[k])) == Some(list@[k]),
        decreases items.len() - i,
    {
        match register_from_json(&items[i]) {
            Some(register) => {
                list.push(register);
            },
            None => {
                assert(register_of_json(docs[i as int]) is None);
                return None;
            },
        }
        i += 1;
    }
    assert(list@ =~= Seq::new(docs.len(), |k: int| register_of_json(docs[k]).unwrap()));
    Some(list)
}

/// Reads the body of a `Registers` update.
fn snapshot_from_json(body: &Json) -> (registers: Option<Vec<Register>>)
    ensures
        match registers {
            Some(list) => snapshot_of_json(body@) == Some(list@),
            None => snapshot_of_json(body@) is None,
        },
{
    match body {
        Json::Object(inner) => {
            proof {
                lemma_object_view(body);
            }
            if inner.len() != 1 || !text_is(&inner[0].0, "registers") {
                return None;
            }
            match &inner[0].1 {
                Json::Array(items) => {
                    proof {
                        lemma_array_view(&inner[0].1);
                        assert(inner[0].1@->Array_0 =~= items@.map_values(|j: Json| j@));
                    }
                    registers_from_items(items)
                },
                _ => None,
            }
        },
        _ => None,
    }
}

/// Reads an update from a document.
///
/// Gives the update where the document has the shape of one, and
/// [`ProtocolError::Shape`] where it has not.
pub fn update_from_json(json: &Json) -> (update: Result<Update, ProtocolError>)
    ensures
        match update {
            Ok(u) => update_of_json(json@) == Some(u@),
            Err(e) => e == ProtocolError::Shape && update_of_json(json@) is None,
        },
{
    match json {
        Json::Object(members) => {
            proof {
                lemma_object_view(json);
            }
            if members.len() != 1 {
                return Err(ProtocolError::Shape);
            }
            let tag = &members[0].0;
            let body = &members[0].1;
            if text_is(tag, "Registers") {
                match snapshot_from_json(body) {
                    Some(registers) => Ok(Update::Registers(Registers { registers })),
                    None => Err(ProtocolError::Shape),
                }
            } else if text_is(tag, "Halted") {
                match body {
                    Json::Null => Ok(Update::Halted),
                    _ => Err(ProtocolError::Shape),
                }
            } else if text_is(tag, "Running") {
                match body {
                    Json::Null => Ok(Update::Running),
                    _ => Err(ProtocolError::Shape),
                }
            } else {
                Err(ProtocolError::Shape)
            }
        },
        _ => Err(ProtocolError::Shape),
    }
}

/// Decodes one outbound text frame as an update.
///
/// Gives [`ProtocolError::Syntax`] exactly where the text is not JSON, and
/// [`ProtocolError::Shape`] exactly where it is JSON of another shape.
pub fn decode_update(text: &str) -> (update: Result<Update, ProtocolError>)
    ensures
        match update {
            Ok(u) => decoded_update(text@) == Ok::<UpdateView, ProtocolError>(u@),
            Err(e) => decoded_update(text@) == Err::<UpdateView, ProtocolError>(e),
        },
{
    match parse_json(text) {
        Some(json) => update_from_json(&json),
        None => Err(ProtocolError::Syntax),
    }
}

/// The character of one decimal digit.
pub open spec fn digit(d: nat) -> char {
    if d == 0 {
        '0'
    } else if d == 1 {
        '1'
    } else if d == 2 {
        '2'
    } else if d == 3 {
        '3'
    } else if d == 4 {
        '4'
    } else if d == 5 {
        '5'
    } else if d == 6 {
        '6'
    } else if d == 7 {
        '7'
    } else if d == 8 {
        '8'
    } else {
        '9'
    }
}

/// A number in decimal, without sign or leading zeros.
pub open spec fn decimal(n: nat) -> Seq<char>
    decreases n,
{
    if n < 10 {
        seq![digit(n)]
    } else {
        decimal(n / 10).push(digit(n % 10))
    }
}

/// The wire text of one register.
pub open spec fn register_text(register: Register) -> Seq<char> {
    "{\"address\":"@ + decimal(register.address as nat) + ",\"value\":"@ + decimal(
        register.value as nat,
    ) + "}"@
}

/// The wire texts of a list of registers, with a comma between neighbours.
pub open spec fn registers_text(registers: Seq<Register>) -> Seq<char>
    decreases registers.len(),
{
    if registers.len() == 0 {
        Seq::empty()
    } else if registers.len() == 1 {
        register_text(registers[0])
    } else {
        registers_text(registers.drop_last()) + ","@ + register_text(registers.last())
    }
}

/// The wire texts of a list of addresses, with a comma between neighbours.
pub open spec fn addresses_text(addresses: Seq<u32>) -> Seq<char>
    decreases addresses.len(),
{
    if addresses.len() == 0 {
        Seq::empty()
    } else if addresses.len() == 1 {
        decimal(addresses[0] as nat)
    } else {
        addresses_text(addresses.drop_last()) + ","@ + decimal(addresses.last() as nat)
    }
}

/// The wire text of an update.
pub open spec fn update_text(update: UpdateView) -> Seq<char> {
    match update {
        UpdateView::Registers(registers) => "{\"Registers\":{\"registers\":["@ + registers_text(
            registers,
        ) + "]}}"@,
        UpdateView::Halted => "{\"Halted\":null}"@,
        UpdateView::Running => "{\"Running\":null}"@,
    }
}

/// The wire text of a command.
pub open spec fn command_text(command: CommandView) -> Seq<char> {
    match command {
        CommandView::UpdateInterval(ms) => "{\"UpdateInterval\":"@ + decimal(ms as nat) + "}"@,
        CommandView::Watch(addresses) => "{\"Watch\":["@ + addresses_text(addresses) + "]}"@,
        CommandView::SetRegister(register) => "{\"SetRegister\":"@ + register_text(register)
            + "}"@,
        CommandView::Halt => "{\"Halt\":null}"@,
        CommandView::Run => "{\"Run\":null}"@,
    }
}

/// The text of one decimal digit.
fn digit_text(d: u64) -> (text: &'static str)
    requires
        d < 10,
    ensures
        text@ == seq![digit(d as nat)],
{
    proof {
        reveal_strlit("0");
        reveal_strlit("1");
        reveal_strlit("2");
        reveal_strlit("3");
        reveal_strlit("4");
        reveal_strlit("5");
        reveal_strlit("6");
        reveal_strlit("7");
        reveal_strlit("8");
        reveal_strlit("9");
    }
    let text = if d == 0 {
        "0"
    } else if d == 1 {
        "1"
    } else if d == 2 {
        "2"
    } else if d == 3 {
        "3"
    } else if d == 4 {
        "4"
    } else if d == 5 {
        "5"
    } else if d == 6 {
        "6"
    } else if d == 7 {
        "7"
    } else if d == 8 {
        "8"
    } else {
        "9"
    };
    assert(text@ =~= seq![digit(d as nat)]);
    text
}

/// Appends a number in decimal.
fn append_decimal(out: &mut String, n: u64)
    ensures
        final(out)@ == old(out)@ + decimal(n as nat),
    decreases n,
{
    if n >= 10 {
        append_decimal(out, n / 10);
    }
    out.append(digit_text(n % 10));
    assert(out@ =~= old(out)@ + decimal(n as nat));
}

/// Appends the wire text of one register.
fn append_register(out: &mut String, register: &Register)
    ensures
        final(out)@ == old(out)@ + register_text(*register),
{
    out.append("{\"address\":");
    append_decimal(out, register.address as u64);
    out.append(",\"value\":");
    append_decimal(out, register.value as u64);
    out.append("}");
    assert(out@ =~= old(out)@ + register_text(*register));
}

/// Encodes an update as one outbound text frame, in compact form.
pub fn encode_update(update: &Update) -> (text: String)
    ensures
        text@ == update_text(update@),
{
    match update {
        Update::Registers(list) => {
            let registers = &list.registers;
            let mut out = String::from_str("{\"Registers\":{\"registers\":[");
            let ghost head = out@;
            let mut i: usize = 0;
            while i < registers.len()
                invariant
                    i <= registers.len(),
                    out@ == head + registers_text(registers@.take(i as int)),
                decreases registers.len() - i,
            {
                let ghost before = registers@.take(i as int);
                let ghost after = registers@.take(i + 1);
                assert(after.drop_last() =~= before);
                assert(after.last() == registers@[i as int]);
                if i > 0 {
                    out.append(",");
                }
                append_register(&mut out, &registers[i]);
                assert(out@ =~= head + registers_text(after));
                i += 1;
            }
            assert(registers@.take(i as int) =~= registers@);
            out.append("]}}");
            assert(out@ =~= update_text(update@));
            out
        },
        Update::Halted => String::from_str("{\"Halted\":null}"),
        Update::Running => String::from_str("{\"Running\":null}"),
    }
}

/// Encodes a command as one inbound text frame, in compact form.
pub fn encode_command(command: &Command) -> (text: String)
    ensures
        text@ == command_text(command@),
{
    match command {
        Command::UpdateInterval(ms) => {
            let mut out = String::from_str("{\"UpdateInterval\":");
            append_decimal(&mut out, *ms);
            out.append("}");
            assert(out@ =~= command_text(command@));
            out
        },
        Command::Watch(addresses) => {
            let mut out = String::from_str("{\"Watch\":[");
            let ghost head = out@;
            let mut i: usize = 0;
            while i < addresses.len()
                invariant
                    i <= addresses.len(),
                    out@ == head + addresses_text(addresses@.take(i as int)),
                decreases addresses.len() - i,
            {
                let ghost before = addresses@.take(i as int);
                let ghost after = addresses@.take(i + 1);
                assert(after.drop_last() =~= before);
                assert(after.last() == addresses@[i as int]);
                if i > 0 {
                    out.append(",");
                }
                append_decimal(&mut out, addresses[i] as u64);
                assert(out@ =~= head + addresses_text(after));
                i += 1;
            }
            assert(addresses@.take(i as int) =~= addresses@);
            out.append("]}");
            assert(out@ =~= command_text(command@));
            out
        },
        Command::SetRegister(register) => {
            let mut out = String::from_str("{\"SetRegister\":");
            append_register(&mut out, register);
            out.append("}");
            assert(out@ =~= command_text(command@));
            out
        },
        Command::Halt => String::from_str("{\"Halt\":null}"),
        Command::Run => String::from_str("{\"Run\":null}"),
    }
}

} // verus!
