use food_journal::date::CivilDate;
use food_journal::error::ErrorKind;
use food_journal::keys::{
    entry_id, entry_id_from_key, entry_key, entry_prefix, recall_key, user_id_from_key, user_key,
    users_prefix, RecordKind,
};

#[test]
fn user_key_prepends_the_family_prefix() {
    assert_eq!(user_key("alice").unwrap(), "user.alice");
}

#[test]
fn user_key_refuses_the_separator() {
    assert_eq!(user_key("al.ice").unwrap_err().kind, ErrorKind::InvalidInput);
}

#[test]
fn entry_key_joins_user_date_and_timestamp() {
    let date = CivilDate::new(2024, 3, 1).unwrap();
    assert_eq!(
        entry_key("alice", &date, 1709300000000).unwrap(),
        "entry.alice.2024-03-01.1709300000000"
    );
}

#[test]
fn entry_key_pads_the_timestamp_to_thirteen_digits() {
    let date = CivilDate::new(987, 12, 5).unwrap();
    assert_eq!(entry_key("bob", &date, 42).unwrap(), "entry.bob.0987-12-05.0000000000042");
}

#[test]
fn entry_key_refuses_a_timestamp_of_fourteen_digits() {
    let date = CivilDate::new(2024, 3, 1).unwrap();
    assert_eq!(
        entry_key("alice", &date, 10_000_000_000_000).unwrap_err().kind,
        ErrorKind::InvalidInput
    );
    assert!(entry_key("alice", &date, 9_999_999_999_999).is_ok());
}

#[test]
fn recall_key_takes_sixteen_characters() {
    assert_eq!(recall_key("oatmeal with blueberries").unwrap(), "food.oatmeal with blu");
    assert_eq!(recall_key("exactly sixteen!").unwrap(), "food.exactly sixteen!");
}

#[test]
fn recall_key_refuses_a_short_text() {
    assert_eq!(recall_key("fifteen chars..").unwrap_err().kind, ErrorKind::InvalidInput);
    assert_eq!(recall_key("").unwrap_err().kind, ErrorKind::InvalidInput);
}

#[test]
fn recall_key_counts_characters_not_bytes() {
    assert_eq!(recall_key("äöüäöüäöüäöüäöüäöü").unwrap(), "food.äöüäöüäöüäöüäöüä");
    assert_eq!(recall_key("äöüäöüäöü").unwrap_err().kind, ErrorKind::InvalidInput);
}

#[test]
fn entry_id_from_key_strips_the_journal_prefix() {
    assert_eq!(
        entry_id_from_key("entry.alice.2024-03-01.1709300000000", "alice").unwrap(),
        "2024-03-01.1709300000000"
    );
}

#[test]
fn entry_id_from_key_refuses_a_foreign_key() {
    assert_eq!(
        entry_id_from_key("entry.bob.2024-03-01.1709300000000", "alice").unwrap_err().kind,
        ErrorKind::InvalidInput
    );
    assert_eq!(entry_id_from_key("user.alice", "alice").unwrap_err().kind, ErrorKind::InvalidInput);
    assert_eq!(entry_id_from_key("entry.al", "alice").unwrap_err().kind, ErrorKind::InvalidInput);
}

#[test]
fn user_id_from_key_strips_the_family_prefix() {
    assert_eq!(user_id_from_key("user.alice").unwrap(), "alice");
    assert_eq!(user_id_from_key("user.").unwrap(), "");
}

#[test]
fn user_id_from_key_refuses_other_families() {
    assert_eq!(user_id_from_key("food.oatmeal").unwrap_err().kind, ErrorKind::InvalidInput);
    assert_eq!(user_id_from_key("user.a.b").unwrap_err().kind, ErrorKind::InvalidInput);
    assert_eq!(user_id_from_key("use").unwrap_err().kind, ErrorKind::InvalidInput);
}

#[test]
fn each_family_has_its_prefix() {
    assert_eq!(RecordKind::UserProfile.prefix(), "user.");
    assert_eq!(RecordKind::JournalEntry.prefix(), "entry.");
    assert_eq!(RecordKind::RecallIndex.prefix(), "food.");
    assert_eq!(users_prefix(), "user.");
    assert_eq!(entry_prefix("alice").unwrap(), "entry.alice.");
    assert_eq!(entry_prefix("a.b").unwrap_err().kind, ErrorKind::InvalidInput);
}

#[test]
fn the_prefix_of_a_key_tells_its_family() {
    let date = CivilDate::new(2024, 3, 1).unwrap();
    assert_eq!(RecordKind::of_key(&user_key("alice").unwrap()), Some(RecordKind::UserProfile));
    assert_eq!(RecordKind::of_key(&user_key("entry").unwrap()), Some(RecordKind::UserProfile));
    assert_eq!(
        RecordKind::of_key(&entry_key("user", &date, 1709300000000).unwrap()),
        Some(RecordKind::JournalEntry)
    );
    assert_eq!(
        RecordKind::of_key(&recall_key("user.alice and entry.bob").unwrap()),
        Some(RecordKind::RecallIndex)
    );
    assert_eq!(RecordKind::of_key("user."), Some(RecordKind::UserProfile));
    assert_eq!(RecordKind::of_key(""), None);
    assert_eq!(RecordKind::of_key("user"), None);
    assert_eq!(RecordKind::of_key("users.alice"), None);
    assert_eq!(RecordKind::of_key("User.alice"), None);
    assert_eq!(RecordKind::of_key("entry"), None);
    assert_eq!(RecordKind::of_key("foodalice"), None);
    assert_eq!(RecordKind::of_key(" user.alice"), None);
}

#[test]
fn entry_id_joins_date_and_timestamp() {
    let date = CivilDate::new(2024, 3, 1).unwrap();
    assert_eq!(entry_id(&date, 1709300000000).unwrap(), "2024-03-01.1709300000000");
    assert_eq!(entry_id(&date, 0).unwrap(), "2024-03-01.0000000000000");
    assert_eq!(entry_id(&date, u64::MAX).unwrap_err().kind, ErrorKind::InvalidInput);
}

#[test]
fn keys_sort_by_bytes_as_their_identifiers_sort_by_characters() {
    let ids = [
        "", "a", "ab", "b", "z", "~", "\u{7f}", "\u{80}", "é", "éa", "ÿ", "\u{7ff}", "\u{800}", "日",
        "日本", "\u{d7ff}", "\u{e000}", "\u{ffff}", "\u{10000}", "🍎", "\u{10ffff}", "a\u{10ffff}",
        "aé", "a日", "a🍎",
    ];
    for a in ids {
        for b in ids {
            let by_characters = a.chars().lt(b.chars());
            assert_eq!(a.as_bytes() < b.as_bytes(), by_characters, "{a:?} {b:?}");
            let (key_a, key_b) = (user_key(a).unwrap(), user_key(b).unwrap());
            assert_eq!(key_a.as_bytes() < key_b.as_bytes(), by_characters, "{a:?} {b:?}");
            let (key_a, key_b) = (entry_prefix(a).unwrap(), entry_prefix(b).unwrap());
            if a.chars().count() == b.chars().count() {
                assert_eq!(key_a.as_bytes() < key_b.as_bytes(), by_characters, "{a:?} {b:?}");
            }
        }
    }
}
