use strutil::buffer::StrBuffer;
use strutil::text::{StringType, TString};
use strutil::translations::TR;

fn owned(t: TString<'_>) -> String {
    t.map(|s| s.to_string())
}

fn message(id: u16, text: &'static str) -> TR {
    TR::new(id, text).unwrap()
}

#[test]
fn borrowed_text_reads_back() {
    let t = TString::from_str("héllo wörld");
    assert_eq!(owned(t), "héllo wörld");
    assert_eq!(t.len(), "héllo wörld".len());
}

#[test]
fn equal_content_across_origins() {
    let a = TString::from_str("abc");
    let b = TString::from_strbuffer(StrBuffer::from_static("abc"));
    let c = TString::from_translation(message(3, "abc"));
    let d = TString::from_translation(message(4, "xxabc")).skip_prefix(2);
    assert!(a == b);
    assert!(b == c);
    assert!(c == a);
    assert!(d == a);
}

#[test]
fn different_content_is_unequal() {
    let a = TString::from_str("abc");
    let b = TString::from_strbuffer(StrBuffer::from_static("abd"));
    let c = TString::from_translation(message(3, "ab"));
    assert!(a != b);
    assert!(a != c);
    assert!(TString::empty() != a);
}

#[test]
fn skip_twice_equals_skip_once() {
    let variants = [
        TString::from_str("héllo wörld"),
        TString::from_strbuffer(StrBuffer::from_static("héllo wörld")),
        TString::from_translation(message(9, "héllo wörld")),
    ];
    for t in variants {
        let twice = t.skip_prefix(3).skip_prefix(4);
        let once = t.skip_prefix(7);
        assert!(twice == once);
        assert_eq!(owned(twice), "wörld");
    }
}

#[test]
fn skip_past_multibyte_character() {
    let t = TString::from_str("héllo");
    assert_eq!(owned(t.skip_prefix(3)), "llo");
    assert_eq!(owned(t.skip_prefix(1)), "éllo");
}

#[test]
fn skip_keeps_variant() {
    let tr = message(5, "hello world");
    match TString::from_translation(tr).skip_prefix(6) {
        TString::Translation(m) => {
            assert_eq!(m.offset(), 6);
            assert_eq!(m.tr().id(), 5);
        }
        _ => panic!("not a translation"),
    }
    assert!(matches!(
        TString::from_strbuffer(StrBuffer::from_static("abc")).skip_prefix(1),
        TString::Allocated(_)
    ));
    assert!(matches!(TString::from_str("abc").skip_prefix(1), TString::Str(_)));
}

#[test]
fn translation_length_after_offset() {
    let tr = message(5, "hello world");
    assert_eq!(tr.message_len(), 11);
    let t = TString::from_translation(tr);
    assert_eq!(t.len(), 11);
    assert_eq!(t.skip_prefix(6).len(), 5);
    assert_eq!(owned(t.skip_prefix(6)), "world");
}

#[test]
fn empty_and_is_empty() {
    assert!(TString::empty().is_empty());
    assert_eq!(TString::empty().len(), 0);
    assert!(!TString::from_str("a").is_empty());
    assert!(TString::from_str("abc").skip_prefix(3).is_empty());
    assert!(TString::from_translation(message(1, "ab")).skip_prefix(2).is_empty());
    assert!(TString::from_translation(message(1, "")).is_empty());
}

#[test]
fn message_too_long_for_offsets() {
    let long: &'static str = Box::leak("a".repeat(65_536).into_boxed_str());
    assert!(TR::new(1, long).is_none());
    let longest: &'static str = &long[1..];
    assert!(TR::new(1, longest).is_some());
}

#[test]
fn conversions_into_tstring() {
    let a: TString = "abc".into();
    let b: TString = StrBuffer::from("abc").into();
    let c: TString = message(2, "abc").into();
    assert!(a == b && b == c);
    assert_eq!(StrBuffer::from("xyz").as_ref(), "xyz");
}

fn through_trait<T: StringType>(t: T) -> (String, TString<'static>) {
    (t.as_text().to_string(), t.into())
}

#[test]
fn string_type_bound() {
    let (text, t) = through_trait(StrBuffer::from("abc"));
    assert_eq!(text, "abc");
    assert!(t == TString::from_str("abc"));
    let (text, t) = through_trait::<&'static str>("xyz");
    assert_eq!(text, "xyz");
    assert_eq!(owned(t), "xyz");
}

#[test]
fn buffer_skip_prefix() {
    let b = StrBuffer::from_static("añb").skip_prefix(1);
    assert_eq!(b.as_str(), "ñb");
}
