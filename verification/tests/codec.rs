use food_journal::date::CivilDate;
use food_journal::error::ErrorKind;
use food_journal::record::{
    decode_entry, decode_user, encode_entry, encode_user, JournalEntry, UserDbRecord, UserProfile,
};
use food_journal::token::Numeral;

fn alice() -> UserDbRecord {
    UserDbRecord {
        image: "img.png".to_string(),
        display_name: "Alice".to_string(),
        target_calories: 2000,
        target_fat: 250,
        target_protein: 166,
        target_carbohydrate: 44,
        current_date: CivilDate::new(2024, 3, 1).unwrap(),
    }
}

fn oatmeal() -> JournalEntry {
    JournalEntry {
        text: "oatmeal with blueberries".to_string(),
        quantity: Numeral::parse("1.5").unwrap(),
        quantity_units: "cup".to_string(),
        calories: 320,
        carbohydrate: 54,
        fat: 6,
        protein: 11,
        timestamp: 1709300000000,
    }
}

fn user_with_texts(image: &str, display_name: &str) -> UserDbRecord {
    UserDbRecord { image: image.to_string(), display_name: display_name.to_string(), ..alice() }
}

const ALICE_TEXT: &str = "{\"image\":\"img.png\",\"display_name\":\"Alice\",\"target_calories\":2000,\"target_fat\":250,\"target_protein\":166,\"target_carbohydrate\":44,\"current_date\":\"2024-03-01\"}";

const OATMEAL_TEXT: &str = "{\"text\":\"oatmeal with blueberries\",\"timestamp\":1709300000000,\"qty\":1.5,\"qty_units\":\"cup\",\"calories\":320,\"carbohydrate\":54,\"fat\":6,\"protein\":11}";

#[test]
fn encode_user_writes_the_fields_in_order() {
    assert_eq!(encode_user(&alice()), ALICE_TEXT);
}

#[test]
fn encode_entry_writes_the_fields_in_order() {
    assert_eq!(encode_entry(&oatmeal()), OATMEAL_TEXT);
}

#[test]
fn decode_user_reads_what_encode_user_wrote() {
    assert_eq!(decode_user(ALICE_TEXT), Ok(alice()));
    assert_eq!(decode_user(&encode_user(&alice())), Ok(alice()));
}

#[test]
fn decode_entry_reads_what_encode_entry_wrote() {
    assert_eq!(decode_entry(OATMEAL_TEXT), Ok(oatmeal()));
    assert_eq!(decode_entry(&encode_entry(&oatmeal())), Ok(oatmeal()));
}

#[test]
fn user_profile_is_the_user_record() {
    let profile: UserProfile = alice();
    assert_eq!(encode_user(&profile), ALICE_TEXT);
}

#[test]
fn users_round_trip_with_every_kind_of_character() {
    let mut ascii = String::new();
    for code in 0u8..128 {
        ascii.push(code as char);
    }
    let texts = [
        "",
        "plain",
        "\"",
        "\\",
        "\\\"",
        "\"\\\"",
        "a\"b\\c/d",
        "\u{0}\u{1}\u{7}\u{8}\t\n\u{b}\u{c}\r\u{e}\u{1f} \u{7f}",
        "\\u0041",
        "\\n",
        "é ü ß",
        "日本語",
        "🍎🥦",
        "\u{2028}\u{2029}\u{fffd}\u{10ffff}",
        "{\"image\":\"x\"}",
        "a,b:c}d{",
        ascii.as_str(),
    ];
    for image in texts {
        for name in texts {
            let user = user_with_texts(image, name);
            assert_eq!(decode_user(&encode_user(&user)), Ok(user));
        }
    }
}

#[test]
fn entries_round_trip_with_every_kind_of_value() {
    for quantity in ["0", "1", "1.5", "-2.25", "1e21", "1.5e-7", "100.0", "0.1", "7E+2"] {
        for (text, units) in [("", ""), ("a\"b", "\\"), ("line\nbreak", "\ttab"), ("日本語", "🍎")] {
            for number in [0u64, 1, 10, 999, 1709300000000, u64::MAX] {
                let entry = JournalEntry {
                    text: text.to_string(),
                    quantity: Numeral::parse(quantity).unwrap(),
                    quantity_units: units.to_string(),
                    calories: number,
                    carbohydrate: number / 2,
                    fat: number / 3,
                    protein: u64::MAX - number,
                    timestamp: number,
                };
                assert_eq!(decode_entry(&encode_entry(&entry)), Ok(entry));
            }
        }
    }
}

#[test]
fn users_round_trip_on_every_kind_of_date() {
    for (year, month, day) in [(0, 1, 1), (1, 2, 3), (987, 10, 31), (2024, 2, 29), (9999, 12, 31)] {
        let user = UserDbRecord { current_date: CivilDate::new(year, month, day).unwrap(), ..alice() };
        assert_eq!(decode_user(&encode_user(&user)), Ok(user));
    }
}

#[test]
fn strings_are_escaped_as_serde_json_escapes_them() {
    let mut texts: Vec<String> = Vec::new();
    for code in 0u32..0x300 {
        texts.push(char::from_u32(code).unwrap().to_string());
    }
    for code in [0x2028u32, 0x2029, 0xd7ff, 0xe000, 0xfffd, 0xffff, 0x10000, 0x1f34e, 0x10ffff] {
        texts.push(char::from_u32(code).unwrap().to_string());
    }
    texts.push("mixed \" \\ \n \u{1} é 日本 🍎 end".to_string());
    for text in texts {
        let quoted = serde_json::to_string(&text).unwrap();
        let expected = format!(
            "{{\"image\":{quoted},\"display_name\":{quoted},\"target_calories\":2000,\"target_fat\":250,\"target_protein\":166,\"target_carbohydrate\":44,\"current_date\":\"2024-03-01\"}}"
        );
        let user = user_with_texts(&text, &text);
        assert_eq!(encode_user(&user), expected, "{text:?}");
        assert_eq!(decode_user(&expected), Ok(user), "{text:?}");
    }
}

#[test]
fn encoded_records_are_json_with_the_same_values() {
    let user = user_with_texts("a\"b\\c\n\u{1}é🍎", "Alice \"the\" First");
    let value: serde_json::Value = serde_json::from_str(&encode_user(&user)).unwrap();
    assert_eq!(value["image"].as_str(), Some("a\"b\\c\n\u{1}é🍎"));
    assert_eq!(value["display_name"].as_str(), Some("Alice \"the\" First"));
    assert_eq!(value["target_calories"].as_u64(), Some(2000));
    assert_eq!(value["target_fat"].as_u64(), Some(250));
    assert_eq!(value["target_protein"].as_u64(), Some(166));
    assert_eq!(value["target_carbohydrate"].as_u64(), Some(44));
    assert_eq!(value["current_date"].as_str(), Some("2024-03-01"));
    assert_eq!(value.as_object().unwrap().len(), 7);

    let value: serde_json::Value = serde_json::from_str(&encode_entry(&oatmeal())).unwrap();
    assert_eq!(value["text"].as_str(), Some("oatmeal with blueberries"));
    assert_eq!(value["timestamp"].as_u64(), Some(1709300000000));
    assert_eq!(value["qty"].as_f64(), Some(1.5));
    assert_eq!(value["qty_units"].as_str(), Some("cup"));
    assert_eq!(value["calories"].as_u64(), Some(320));
    assert_eq!(value["carbohydrate"].as_u64(), Some(54));
    assert_eq!(value["fat"].as_u64(), Some(6));
    assert_eq!(value["protein"].as_u64(), Some(11));
    assert_eq!(value.as_object().unwrap().len(), 8);
}

#[test]
fn decode_user_looks_fields_up_by_name() {
    let reordered = "{\"current_date\":\"2024-03-01\",\"target_carbohydrate\":44,\"target_protein\":166,\"target_fat\":250,\"target_calories\":2000,\"display_name\":\"Alice\",\"image\":\"img.png\"}";
    assert_eq!(decode_user(reordered), Ok(alice()));
}

#[test]
fn decode_user_passes_over_members_it_does_not_know() {
    let extended = "{\"schema\":2,\"image\":\"img.png\",\"display_name\":\"Alice\",\"nickname\":\"Al\",\"target_calories\":2000,\"target_fat\":250,\"target_protein\":166,\"target_carbohydrate\":44,\"current_date\":\"2024-03-01\",\"weight\":71.5}";
    assert_eq!(decode_user(extended), Ok(alice()));
}

#[test]
fn decode_entry_looks_fields_up_by_name() {
    let reordered = "{\"protein\":11,\"fat\":6,\"carbohydrate\":54,\"calories\":320,\"qty_units\":\"cup\",\"qty\":1.5,\"timestamp\":1709300000000,\"note\":\"x\",\"text\":\"oatmeal with blueberries\"}";
    assert_eq!(decode_entry(reordered), Ok(oatmeal()));
}

fn corrupt_user(text: &str) {
    assert_eq!(decode_user(text).unwrap_err().kind, ErrorKind::CorruptRecord, "{text:?}");
}

fn corrupt_entry(text: &str) {
    assert_eq!(decode_entry(text).unwrap_err().kind, ErrorKind::CorruptRecord, "{text:?}");
}

#[test]
fn decode_user_refuses_a_missing_field() {
    corrupt_user("{}");
    corrupt_user("{\"image\":\"img.png\",\"display_name\":\"Alice\",\"target_calories\":2000,\"target_fat\":250,\"target_protein\":166,\"target_carbohydrate\":44}");
    corrupt_user("{\"display_name\":\"Alice\",\"target_calories\":2000,\"target_fat\":250,\"target_protein\":166,\"target_carbohydrate\":44,\"current_date\":\"2024-03-01\"}");
}

#[test]
fn decode_user_refuses_a_field_that_occurs_twice() {
    corrupt_user("{\"image\":\"img.png\",\"image\":\"img.png\",\"display_name\":\"Alice\",\"target_calories\":2000,\"target_fat\":250,\"target_protein\":166,\"target_carbohydrate\":44,\"current_date\":\"2024-03-01\"}");
    corrupt_user("{\"image\":\"img.png\",\"display_name\":\"Alice\",\"target_calories\":2000,\"target_fat\":250,\"target_protein\":166,\"target_carbohydrate\":44,\"current_date\":\"2024-03-01\",\"target_fat\":251}");
}

#[test]
fn decode_user_refuses_a_value_of_the_wrong_kind() {
    corrupt_user(&ALICE_TEXT.replace("\"img.png\"", "17"));
    corrupt_user(&ALICE_TEXT.replace("2000", "\"2000\""));
    corrupt_user(&ALICE_TEXT.replace("2000", "2000.0"));
    corrupt_user(&ALICE_TEXT.replace("2000", "2e3"));
    corrupt_user(&ALICE_TEXT.replace("2000", "-2000"));
    corrupt_user(&ALICE_TEXT.replace("2000", "18446744073709551616"));
    corrupt_user(&ALICE_TEXT.replace("\"2024-03-01\"", "20240301"));
}

#[test]
fn decode_user_refuses_a_date_that_is_no_day() {
    corrupt_user(&ALICE_TEXT.replace("2024-03-01", "2024-02-30"));
    corrupt_user(&ALICE_TEXT.replace("2024-03-01", "2024-3-1"));
    corrupt_user(&ALICE_TEXT.replace("2024-03-01", "2024-03-01T00:00:00"));
    corrupt_user(&ALICE_TEXT.replace("2024-03-01", ""));
    corrupt_user(&ALICE_TEXT.replace("2024-03-01", "tomorrow"));
}

#[test]
fn decode_user_refuses_text_that_is_no_compact_record() {
    corrupt_user("");
    corrupt_user("{");
    corrupt_user("}");
    corrupt_user("[]");
    corrupt_user("null");
    corrupt_user("\"text\"");
    corrupt_user(&format!(" {ALICE_TEXT}"));
    corrupt_user(&format!("{ALICE_TEXT} "));
    corrupt_user(&format!("{ALICE_TEXT}\n"));
    corrupt_user(&format!("{ALICE_TEXT}{ALICE_TEXT}"));
    corrupt_user(&ALICE_TEXT.replace(",", ", "));
    corrupt_user(&ALICE_TEXT.replace(":", ": "));
    corrupt_user(&ALICE_TEXT.replace(",\"current_date\"", ",,\"current_date\""));
    corrupt_user(&ALICE_TEXT.replace("}", ",}"));
    corrupt_user(&ALICE_TEXT.replace("{", "{,"));
    corrupt_user(&ALICE_TEXT.replace("\"image\"", "image"));
    corrupt_user(&ALICE_TEXT.replace("\"img.png\"", "\"img.png"));
    corrupt_user(&ALICE_TEXT[..ALICE_TEXT.len() - 1]);
    corrupt_user(&ALICE_TEXT[1..]);
}

#[test]
fn decode_user_refuses_members_that_are_not_flat() {
    corrupt_user(&ALICE_TEXT.replace("\"img.png\"", "null"));
    corrupt_user(&ALICE_TEXT.replace("\"img.png\"", "true"));
    corrupt_user(&ALICE_TEXT.replace("\"img.png\"", "[]"));
    corrupt_user(&ALICE_TEXT.replace("\"img.png\"", "{}"));
    corrupt_user(&ALICE_TEXT.replace("{\"image\"", "{\"extra\":[1,2],\"image\""));
}

#[test]
fn decode_user_refuses_escapes_that_encode_user_does_not_write() {
    corrupt_user(&ALICE_TEXT.replace("img.png", "img\\/png"));
    corrupt_user(&ALICE_TEXT.replace("img.png", "\\u0041"));
    corrupt_user(&ALICE_TEXT.replace("img.png", "\\u000A"));
    corrupt_user(&ALICE_TEXT.replace("img.png", "\\u000a"));
    corrupt_user(&ALICE_TEXT.replace("img.png", "\\u001F"));
    corrupt_user(&ALICE_TEXT.replace("img.png", "\\u00"));
    corrupt_user(&ALICE_TEXT.replace("img.png", "\\x"));
    corrupt_user(&ALICE_TEXT.replace("img.png", "\\"));
    corrupt_user(&ALICE_TEXT.replace("img.png", "line\nbreak"));
    corrupt_user(&ALICE_TEXT.replace("img.png", "tab\there"));
    assert!(decode_user(&ALICE_TEXT.replace("img.png", "\\u001f")).is_ok());
    assert!(decode_user(&ALICE_TEXT.replace("img.png", "\\u0000")).is_ok());
}

#[test]
fn decode_entry_refuses_what_is_no_entry() {
    corrupt_entry("");
    corrupt_entry("{}");
    corrupt_entry(ALICE_TEXT);
    corrupt_entry(&OATMEAL_TEXT.replace("1.5", "\"1.5\""));
    corrupt_entry(&OATMEAL_TEXT.replace("1.5", "1."));
    corrupt_entry(&OATMEAL_TEXT.replace("1.5", "01.5"));
    corrupt_entry(&OATMEAL_TEXT.replace("1.5", "NaN"));
    corrupt_entry(&OATMEAL_TEXT.replace("1.5", "null"));
    corrupt_entry(&OATMEAL_TEXT.replace("1709300000000", "1709300000000.5"));
    corrupt_entry(&OATMEAL_TEXT.replace("\"cup\"", "3"));
    corrupt_entry(&OATMEAL_TEXT.replace(",\"protein\":11", ""));
    corrupt_entry(&OATMEAL_TEXT.replace("\"fat\":6", "\"fat\":6,\"fat\":6"));
}

#[test]
fn decode_entry_keeps_the_quantity_as_written() {
    for quantity in ["2", "2.0", "2.00", "2e0", "0.2e1", "-0"] {
        let text = OATMEAL_TEXT.replace("1.5", quantity);
        let entry = decode_entry(&text).unwrap();
        assert_eq!(entry.quantity.as_str(), quantity);
        assert_eq!(encode_entry(&entry), text);
    }
}

#[test]
fn decode_user_reads_a_record_without_a_date_as_corrupt() {
    corrupt_user("{\"image\":\"img.png\",\"display_name\":\"Alice\",\"target_calories\":2000,\"target_fat\":250,\"target_protein\":166,\"target_carbohydrate\":44}");
}
