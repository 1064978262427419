use regbridge::json::{parse_json, Json};
use regbridge::message::{Command, Register, Registers, Update};
use regbridge::wire::{
    command_from_json, decode_command, decode_update, encode_command, encode_update,
    register_from_json, u32_from_json, update_from_json, ProtocolError,
};

#[test]
fn parse_json_reads_scalars() {
    assert!(matches!(parse_json("null"), Some(Json::Null)));
    assert!(matches!(parse_json("true"), Some(Json::Bool(true))));
    assert!(matches!(parse_json("42"), Some(Json::Number(Some(42)))));
    assert!(matches!(parse_json(" 18446744073709551615 "), Some(Json::Number(Some(u64::MAX)))));
}

#[test]
fn parse_json_marks_numbers_that_are_not_unsigned() {
    assert!(matches!(parse_json("-1"), Some(Json::Number(None))));
    assert!(matches!(parse_json("1.5"), Some(Json::Number(None))));
    assert!(matches!(parse_json("1e3"), Some(Json::Number(None))));
}

#[test]
fn parse_json_reads_text() {
    match parse_json("\"Halt\"") {
        Some(Json::Text(text)) => assert_eq!(text, "Halt"),
        other => panic!("unexpected document: {:?}", other),
    }
}

#[test]
fn parse_json_keeps_the_order_of_an_array() {
    match parse_json("[3, 1, 2]") {
        Some(Json::Array(items)) => {
            assert_eq!(items.len(), 3);
            assert!(matches!(items[0], Json::Number(Some(3))));
            assert!(matches!(items[1], Json::Number(Some(1))));
            assert!(matches!(items[2], Json::Number(Some(2))));
        }
        other => panic!("unexpected document: {:?}", other),
    }
}

#[test]
fn parse_json_reads_the_members_of_an_object() {
    match parse_json("{\"address\": 4096, \"value\": null}") {
        Some(Json::Object(members)) => {
            assert_eq!(members.len(), 2);
            assert_eq!(members[0].0, "address");
            assert!(matches!(members[0].1, Json::Number(Some(4096))));
            assert_eq!(members[1].0, "value");
            assert!(matches!(members[1].1, Json::Null));
        }
        other => panic!("unexpected document: {:?}", other),
    }
}

#[test]
fn parse_json_rejects_what_is_not_json() {
    assert!(parse_json("").is_none());
    assert!(parse_json("{\"Watch\":[1,").is_none());
    assert!(parse_json("{\"Halt\":null} trailing").is_none());
    assert!(parse_json("{Halt:null}").is_none());
}

#[test]
fn u32_from_json_takes_numbers_up_to_32_bits() {
    assert_eq!(u32_from_json(&Json::Number(Some(0))), Some(0));
    assert_eq!(u32_from_json(&Json::Number(Some(4294967295))), Some(u32::MAX));
    assert_eq!(u32_from_json(&Json::Number(Some(4294967296))), None);
    assert_eq!(u32_from_json(&Json::Number(None)), None);
    assert_eq!(u32_from_json(&Json::Null), None);
    assert_eq!(u32_from_json(&Json::Text("7".to_string())), None);
}

#[test]
fn register_from_json_takes_members_in_either_order() {
    let straight = parse_json("{\"address\":4096,\"value\":7}").unwrap();
    assert_eq!(register_from_json(&straight), Some(Register { address: 4096, value: 7 }));
    let crossed = Json::Object(vec![
        ("value".to_string(), Json::Number(Some(7))),
        ("address".to_string(), Json::Number(Some(4096))),
    ]);
    assert_eq!(register_from_json(&crossed), Some(Register { address: 4096, value: 7 }));
}

#[test]
fn register_from_json_rejects_other_shapes() {
    let missing = parse_json("{\"address\":4096}").unwrap();
    assert_eq!(register_from_json(&missing), None);
    let extra = parse_json("{\"address\":1,\"value\":2,\"width\":32}").unwrap();
    assert_eq!(register_from_json(&extra), None);
    let misnamed = parse_json("{\"address\":1,\"values\":2}").unwrap();
    assert_eq!(register_from_json(&misnamed), None);
    let too_large = parse_json("{\"address\":4294967296,\"value\":2}").unwrap();
    assert_eq!(register_from_json(&too_large), None);
    let listed = parse_json("[1,2]").unwrap();
    assert_eq!(register_from_json(&listed), None);
}

#[test]
fn decode_command_reads_every_variant() {
    assert_eq!(decode_command("{\"UpdateInterval\":250}"), Ok(Command::UpdateInterval(250)));
    assert_eq!(decode_command("{\"Watch\":[4096,8196]}"), Ok(Command::Watch(vec![4096, 8196])));
    assert_eq!(decode_command("{\"Watch\":[]}"), Ok(Command::Watch(vec![])));
    assert_eq!(
        decode_command("{\"SetRegister\":{\"address\":4096,\"value\":7}}"),
        Ok(Command::SetRegister(Register { address: 4096, value: 7 }))
    );
    assert_eq!(decode_command("{\"Halt\":null}"), Ok(Command::Halt));
    assert_eq!(decode_command("{\"Run\":null}"), Ok(Command::Run));
}

#[test]
fn decode_command_allows_whitespace() {
    assert_eq!(
        decode_command(" { \"Watch\" : [ 4096 ,\n 8196 ] } "),
        Ok(Command::Watch(vec![4096, 8196]))
    );
    assert_eq!(decode_command("{\"Halt\": null}"), Ok(Command::Halt));
}

#[test]
fn decode_command_keeps_duplicate_addresses() {
    assert_eq!(decode_command("{\"Watch\":[8,8,4]}"), Ok(Command::Watch(vec![8, 8, 4])));
}

#[test]
fn decode_command_takes_a_64_bit_interval() {
    assert_eq!(
        decode_command("{\"UpdateInterval\":18446744073709551615}"),
        Ok(Command::UpdateInterval(u64::MAX))
    );
}

#[test]
fn decode_command_reports_syntax_errors() {
    assert_eq!(decode_command(""), Err(ProtocolError::Syntax));
    assert_eq!(decode_command("{\"Watch\":[4096,"), Err(ProtocolError::Syntax));
    assert_eq!(decode_command("{\"Halt\":null"), Err(ProtocolError::Syntax));
    assert_eq!(decode_command("Halt"), Err(ProtocolError::Syntax));
}

#[test]
fn decode_command_reports_shape_errors() {
    assert_eq!(decode_command("null"), Err(ProtocolError::Shape));
    assert_eq!(decode_command("\"Halt\""), Err(ProtocolError::Shape));
    assert_eq!(decode_command("{}"), Err(ProtocolError::Shape));
    assert_eq!(decode_command("{\"Halt\":null,\"Run\":null}"), Err(ProtocolError::Shape));
    assert_eq!(decode_command("{\"Halt\":1}"), Err(ProtocolError::Shape));
    assert_eq!(decode_command("{\"Run\":[]}"), Err(ProtocolError::Shape));
    assert_eq!(decode_command("{\"Stop\":null}"), Err(ProtocolError::Shape));
    assert_eq!(decode_command("{\"halt\":null}"), Err(ProtocolError::Shape));
    assert_eq!(decode_command("{\"Watch\":4096}"), Err(ProtocolError::Shape));
    assert_eq!(decode_command("{\"Watch\":[4096,\"8196\"]}"), Err(ProtocolError::Shape));
    assert_eq!(decode_command("{\"Watch\":[4294967296]}"), Err(ProtocolError::Shape));
    assert_eq!(decode_command("{\"Watch\":[-1]}"), Err(ProtocolError::Shape));
    assert_eq!(decode_command("{\"UpdateInterval\":1.5}"), Err(ProtocolError::Shape));
    assert_eq!(decode_command("{\"UpdateInterval\":null}"), Err(ProtocolError::Shape));
    assert_eq!(decode_command("{\"SetRegister\":{\"address\":1}}"), Err(ProtocolError::Shape));
    assert_eq!(decode_command("{\"SetRegister\":[1,2]}"), Err(ProtocolError::Shape));
    assert_eq!(decode_command("{\"Registers\":{\"registers\":[]}}"), Err(ProtocolError::Shape));
}

#[test]
fn command_from_json_reads_a_tree_built_by_hand() {
    let tree = Json::Object(vec![(
        "Watch".to_string(),
        Json::Array(vec![Json::Number(Some(1)), Json::Number(Some(2))]),
    )]);
    assert_eq!(command_from_json(&tree), Ok(Command::Watch(vec![1, 2])));
    let wrong = Json::Array(vec![Json::Text("Halt".to_string())]);
    assert_eq!(command_from_json(&wrong), Err(ProtocolError::Shape));
}

#[test]
fn encode_update_writes_the_compact_form() {
    assert_eq!(encode_update(&Update::Halted), "{\"Halted\":null}");
    assert_eq!(encode_update(&Update::Running), "{\"Running\":null}");
    assert_eq!(
        encode_update(&Update::Registers(Registers { registers: vec![] })),
        "{\"Registers\":{\"registers\":[]}}"
    );
    assert_eq!(
        encode_update(&Update::Registers(Registers {
            registers: vec![Register { address: 4096, value: 7 }],
        })),
        "{\"Registers\":{\"registers\":[{\"address\":4096,\"value\":7}]}}"
    );
    assert_eq!(
        encode_update(&Update::Registers(Registers {
            registers: vec![
                Register { address: 4096, value: 0 },
                Register { address: 8196, value: 4294967295 },
                Register { address: 0, value: 10 },
            ],
        })),
        "{\"Registers\":{\"registers\":[{\"address\":4096,\"value\":0},{\"address\":8196,\"value\":4294967295},{\"address\":0,\"value\":10}]}}"
    );
}

#[test]
fn encode_command_writes_the_compact_form() {
    assert_eq!(encode_command(&Command::Halt), "{\"Halt\":null}");
    assert_eq!(encode_command(&Command::Run), "{\"Run\":null}");
    assert_eq!(encode_command(&Command::UpdateInterval(0)), "{\"UpdateInterval\":0}");
    assert_eq!(
        encode_command(&Command::UpdateInterval(u64::MAX)),
        "{\"UpdateInterval\":18446744073709551615}"
    );
    assert_eq!(encode_command(&Command::Watch(vec![])), "{\"Watch\":[]}");
    assert_eq!(encode_command(&Command::Watch(vec![9])), "{\"Watch\":[9]}");
    assert_eq!(encode_command(&Command::Watch(vec![4096, 8196])), "{\"Watch\":[4096,8196]}");
    assert_eq!(
        encode_command(&Command::SetRegister(Register { address: 4096, value: 7 })),
        "{\"SetRegister\":{\"address\":4096,\"value\":7}}"
    );
}

#[test]
fn encoded_numbers_have_no_leading_zeros() {
    for (number, text) in [
        (0u64, "0"),
        (9, "9"),
        (10, "10"),
        (99, "99"),
        (100, "100"),
        (1000, "1000"),
        (1234567890, "1234567890"),
    ] {
        assert_eq!(
            encode_command(&Command::UpdateInterval(number)),
            format!("{{\"UpdateInterval\":{}}}", text)
        );
    }
}

#[test]
fn decode_update_reads_every_variant() {
    assert_eq!(decode_update("{\"Halted\":null}"), Ok(Update::Halted));
    assert_eq!(decode_update("{\"Running\":null}"), Ok(Update::Running));
    assert_eq!(
        decode_update("{\"Registers\":{\"registers\":[]}}"),
        Ok(Update::Registers(Registers { registers: vec![] }))
    );
    assert_eq!(
        decode_update(
            "{\"Registers\": {\"registers\": [{\"address\": 4096, \"value\": 7}, {\"value\": 1, \"address\": 2}]}}"
        ),
        Ok(Update::Registers(Registers {
            registers: vec![Register { address: 4096, value: 7 }, Register { address: 2, value: 1 }],
        }))
    );
}

#[test]
fn decode_update_reports_errors() {
    assert_eq!(decode_update("{\"Halted\":"), Err(ProtocolError::Syntax));
    assert_eq!(decode_update("{\"Halted\":0}"), Err(ProtocolError::Shape));
    assert_eq!(decode_update("{\"Registers\":[]}"), Err(ProtocolError::Shape));
    assert_eq!(decode_update("{\"Registers\":{\"list\":[]}}"), Err(ProtocolError::Shape));
    assert_eq!(decode_update("{\"Registers\":{\"registers\":[1]}}"), Err(ProtocolError::Shape));
    assert_eq!(
        decode_update("{\"Registers\":{\"registers\":[],\"more\":1}}"),
        Err(ProtocolError::Shape)
    );
    assert_eq!(decode_update("{\"Halt\":null}"), Err(ProtocolError::Shape));
}

#[test]
fn update_from_json_reads_a_tree_built_by_hand() {
    let tree = Json::Object(vec![("Running".to_string(), Json::Null)]);
    assert_eq!(update_from_json(&tree), Ok(Update::Running));
    assert_eq!(update_from_json(&Json::Null), Err(ProtocolError::Shape));
}

#[test]
fn commands_survive_the_wire() {
    let commands = vec![
        Command::UpdateInterval(100),
        Command::Watch(vec![]),
        Command::Watch(vec![1, 1, 4294967295]),
        Command::SetRegister(Register { address: 0, value: 0 }),
        Command::SetRegister(Register { address: 4294967295, value: 4294967295 }),
        Command::Halt,
        Command::Run,
    ];
    for command in commands {
        assert_eq!(decode_command(&encode_command(&command)), Ok(command));
    }
}

#[test]
fn updates_survive_the_wire() {
    let updates = vec![
        Update::Halted,
        Update::Running,
        Update::Registers(Registers { registers: vec![] }),
        Update::Registers(Registers {
            registers: vec![Register { address: 1, value: 2 }, Register { address: 3, value: 4 }],
        }),
    ];
    for update in updates {
        assert_eq!(decode_update(&encode_update(&update)), Ok(update));
    }
}

#[test]
fn encoded_text_is_json() {
    let text = encode_update(&Update::Registers(Registers {
        registers: vec![Register { address: 4096, value: 7 }],
    }));
    let value: serde_json::Value = serde_json::from_str(&text).unwrap();
    assert_eq!(value["Registers"]["registers"][0]["address"].as_u64(), Some(4096));
    assert_eq!(value["Registers"]["registers"][0]["value"].as_u64(), Some(7));
    let text = encode_command(&Command::Halt);
    let value: serde_json::Value = serde_json::from_str(&text).unwrap();
    assert!(value["Halt"].is_null());
}

fn tagged(tag: &str, body: serde_json::Value) -> serde_json::Value {
    let mut members = serde_json::Map::new();
    members.insert(tag.to_string(), body);
    serde_json::Value::Object(members)
}

fn register_value(address: u32, value: u32) -> serde_json::Value {
    let mut members = serde_json::Map::new();
    members.insert("address".to_string(), serde_json::Value::from(address));
    members.insert("value".to_string(), serde_json::Value::from(value));
    serde_json::Value::Object(members)
}

#[test]
fn encoded_text_is_what_serde_json_writes_for_the_same_document() {
    let update = Update::Registers(Registers {
        registers: vec![Register { address: 4096, value: 7 }, Register { address: 8196, value: 0 }],
    });
    let document = tagged(
        "Registers",
        tagged(
            "registers",
            serde_json::Value::Array(vec![register_value(4096, 7), register_value(8196, 0)]),
        ),
    );
    assert_eq!(encode_update(&update), serde_json::to_string(&document).unwrap());
    assert_eq!(
        encode_update(&Update::Halted),
        serde_json::to_string(&tagged("Halted", serde_json::Value::Null)).unwrap()
    );
    assert_eq!(
        encode_command(&Command::Watch(vec![1, 2, 3])),
        serde_json::to_string(&tagged(
            "Watch",
            serde_json::Value::Array(vec![
                serde_json::Value::from(1u32),
                serde_json::Value::from(2u32),
                serde_json::Value::from(3u32),
            ])
        ))
        .unwrap()
    );
    assert_eq!(
        encode_command(&Command::SetRegister(Register { address: 1, value: 2 })),
        serde_json::to_string(&tagged("SetRegister", register_value(1, 2))).unwrap()
    );
    assert_eq!(
        encode_command(&Command::UpdateInterval(u64::MAX)),
        serde_json::to_string(&tagged("UpdateInterval", serde_json::Value::from(u64::MAX))).unwrap()
    );
}
