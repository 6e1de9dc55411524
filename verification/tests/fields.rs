use piecetedrevival::fields::KittyImageFields;
use piecetedrevival::value::KittyImageCmdValue;

fn value_text(value: KittyImageCmdValue) -> String {
    let mut out = String::new();
    value.write_to(&mut out);
    out
}

fn get_u(fields: &KittyImageFields, key: char) -> Option<u32> {
    match fields.get(key) {
        Some(KittyImageCmdValue::U(u)) => Some(u),
        _ => None,
    }
}

#[test]
fn character_value_is_written_as_itself() {
    assert_eq!(value_text(KittyImageCmdValue::C('p')), "p");
    assert_eq!(value_text(KittyImageCmdValue::C('I')), "I");
    assert_eq!(value_text(KittyImageCmdValue::C('\u{e9}')), "\u{e9}");
}

#[test]
fn unsigned_value_is_written_in_decimal() {
    assert_eq!(value_text(KittyImageCmdValue::U(0)), "0");
    assert_eq!(value_text(KittyImageCmdValue::U(7)), "7");
    assert_eq!(value_text(KittyImageCmdValue::U(10)), "10");
    assert_eq!(value_text(KittyImageCmdValue::U(100)), "100");
    assert_eq!(value_text(KittyImageCmdValue::U(4096)), "4096");
    assert_eq!(value_text(KittyImageCmdValue::U(u32::MAX)), "4294967295");
}

#[test]
fn signed_value_is_written_in_decimal() {
    assert_eq!(value_text(KittyImageCmdValue::I(0)), "0");
    assert_eq!(value_text(KittyImageCmdValue::I(42)), "42");
    assert_eq!(value_text(KittyImageCmdValue::I(-1)), "-1");
    assert_eq!(value_text(KittyImageCmdValue::I(-120)), "-120");
    assert_eq!(value_text(KittyImageCmdValue::I(i32::MAX)), "2147483647");
    assert_eq!(value_text(KittyImageCmdValue::I(i32::MIN)), "-2147483648");
}

#[test]
fn value_text_matches_std_formatting() {
    for u in [0u32, 1, 9, 10, 11, 99, 100, 101, 999, 1000, 65535, 65536, 1_000_000_000, u32::MAX] {
        assert_eq!(value_text(KittyImageCmdValue::U(u)), format!("{}", u));
    }
    for i in [0i32, 1, -1, 9, -9, 10, -10, 12345, -12345, i32::MAX, i32::MIN, i32::MIN + 1] {
        assert_eq!(value_text(KittyImageCmdValue::I(i)), format!("{}", i));
    }
}

#[test]
fn value_is_appended_to_what_is_there() {
    let mut out = String::from("x=");
    KittyImageCmdValue::I(-5).write_to(&mut out);
    assert_eq!(out, "x=-5");
}

#[test]
fn empty_field_set_has_empty_text() {
    let fields = KittyImageFields::new();
    assert!(fields.is_empty());
    assert_eq!(fields.len(), 0);
    assert_eq!(fields.serialize(), "");
}

#[test]
fn fields_are_written_in_insertion_order() {
    let mut fields = KittyImageFields::new();
    fields.insert('f', KittyImageCmdValue::U(100));
    fields.insert('a', KittyImageCmdValue::C('T'));
    fields.insert('z', KittyImageCmdValue::I(-3));
    assert_eq!(fields.len(), 3);
    assert!(!fields.is_empty());
    assert_eq!(fields.serialize(), ",f=100,a=T,z=-3");

    let mut other = KittyImageFields::new();
    other.insert('z', KittyImageCmdValue::I(-3));
    other.insert('a', KittyImageCmdValue::C('T'));
    other.insert('f', KittyImageCmdValue::U(100));
    assert_eq!(other.serialize(), ",z=-3,a=T,f=100");
}

#[test]
fn serialize_gives_the_same_text_every_time() {
    let mut fields = KittyImageFields::new();
    for (at, key) in "abcdefghijklmnop".chars().enumerate() {
        fields.insert(key, KittyImageCmdValue::U(at as u32));
    }
    let first = fields.serialize();
    for _ in 0..20 {
        assert_eq!(fields.serialize(), first);
    }
    let mut again = KittyImageFields::new();
    for (at, key) in "abcdefghijklmnop".chars().enumerate() {
        again.insert(key, KittyImageCmdValue::U(at as u32));
    }
    assert_eq!(again.serialize(), first);
    assert_eq!(
        first,
        ",a=0,b=1,c=2,d=3,e=4,f=5,g=6,h=7,i=8,j=9,k=10,l=11,m=12,n=13,o=14,p=15"
    );
}

#[test]
fn insert_of_a_present_key_keeps_its_place() {
    let mut fields = KittyImageFields::new();
    assert!(fields.insert('a', KittyImageCmdValue::U(1)).is_none());
    assert!(fields.insert('b', KittyImageCmdValue::U(2)).is_none());
    assert!(fields.insert('c', KittyImageCmdValue::U(3)).is_none());
    let previous = fields.insert('b', KittyImageCmdValue::U(20));
    assert!(matches!(previous, Some(KittyImageCmdValue::U(2))));
    assert_eq!(fields.len(), 3);
    assert_eq!(fields.serialize(), ",a=1,b=20,c=3");
}

#[test]
fn remove_takes_one_field_and_keeps_the_order() {
    let mut fields = KittyImageFields::new();
    fields.insert('a', KittyImageCmdValue::U(1));
    fields.insert('q', KittyImageCmdValue::U(2));
    fields.insert('c', KittyImageCmdValue::U(3));
    let removed = fields.remove('q');
    assert!(matches!(removed, Some(KittyImageCmdValue::U(2))));
    assert_eq!(fields.serialize(), ",a=1,c=3");
    assert!(fields.remove('q').is_none());
    assert_eq!(fields.serialize(), ",a=1,c=3");
    assert!(matches!(fields.remove('a'), Some(KittyImageCmdValue::U(1))));
    assert!(matches!(fields.remove('c'), Some(KittyImageCmdValue::U(3))));
    assert!(fields.is_empty());
}

#[test]
fn get_and_contains_key_find_what_was_inserted() {
    let mut fields = KittyImageFields::new();
    assert!(!fields.contains_key('i'));
    assert!(fields.get('i').is_none());
    fields.insert('i', KittyImageCmdValue::U(31));
    fields.insert('p', KittyImageCmdValue::U(41));
    assert!(fields.contains_key('i'));
    assert!(fields.contains_key('p'));
    assert!(!fields.contains_key('q'));
    assert_eq!(get_u(&fields, 'i'), Some(31));
    assert_eq!(get_u(&fields, 'p'), Some(41));
    assert_eq!(get_u(&fields, 'q'), None);
}

#[test]
fn field_at_walks_the_fields_in_order() {
    let mut fields = KittyImageFields::new();
    fields.insert('x', KittyImageCmdValue::U(1));
    fields.insert('y', KittyImageCmdValue::C('k'));
    assert!(matches!(fields.field_at(0), Some(('x', KittyImageCmdValue::U(1)))));
    assert!(matches!(fields.field_at(1), Some(('y', KittyImageCmdValue::C('k')))));
    assert!(fields.field_at(2).is_none());
}

#[test]
fn keys_are_not_sanitized() {
    let mut fields = KittyImageFields::new();
    fields.insert('\u{7}', KittyImageCmdValue::C(';'));
    fields.insert(',', KittyImageCmdValue::C('='));
    assert_eq!(fields.serialize(), ",\u{7}=;,,==");
}

#[test]
fn write_to_appends_the_text() {
    let mut fields = KittyImageFields::new();
    fields.insert('s', KittyImageCmdValue::U(640));
    fields.insert('v', KittyImageCmdValue::U(480));
    let mut out = String::from("q=1");
    fields.write_to(&mut out);
    assert_eq!(out, "q=1,s=640,v=480");
}

#[test]
fn to_text_gives_the_text_alone() {
    assert_eq!(KittyImageCmdValue::C('d').to_text(), "d");
    assert_eq!(KittyImageCmdValue::I(-77).to_text(), "-77");
    assert_eq!(KittyImageCmdValue::U(1234567890).to_text(), "1234567890");
}
