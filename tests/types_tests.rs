use ruled_router::convert::{FromParam, ToParam};
use ruled_router::error::ParseError;
use ruled_router::types::{Email, Slug, UserId, Version};

#[test]
fn test_number_conversions() {
    assert_eq!(u32::from_param("123").unwrap(), 123);
    assert_eq!(i32::from_param("-456").unwrap(), -456);

    assert!(u32::from_param("abc").is_err());
    assert!(i32::from_param("12.34").is_err());

    assert_eq!(123u32.to_param(), "123");
    assert_eq!((-456i32).to_param(), "-456");
}

#[test]
fn test_string_conversions() {
    assert_eq!(String::from_param("hello").unwrap(), "hello");
    assert_eq!("world".to_param(), "world");
    assert_eq!("test".to_string().to_param(), "test");
}

#[test]
fn test_bool_conversions() {
    assert!(bool::from_param("true").unwrap());
    assert!(!bool::from_param("false").unwrap());
    assert!(bool::from_param("1").unwrap());
    assert!(!bool::from_param("0").unwrap());
    assert!(bool::from_param("yes").unwrap());
    assert!(!bool::from_param("no").unwrap());
    assert!(bool::from_param("on").unwrap());
    assert!(!bool::from_param("off").unwrap());

    assert!(bool::from_param("maybe").is_err());

    assert_eq!(true.to_param(), "true");
    assert_eq!(false.to_param(), "false");
}

#[test]
fn test_option_conversions() {
    assert_eq!(Option::<u32>::from_param("").unwrap(), None);
    assert_eq!(Option::<u32>::from_param("123").unwrap(), Some(123));

    assert_eq!(Some(123u32).to_param(), "123");
    assert_eq!(None::<u32>.to_param(), "");
}

#[test]
fn test_vec_conversions() {
    assert_eq!(Vec::<u32>::from_param("").unwrap(), Vec::<u32>::new());
    assert_eq!(Vec::<u32>::from_param("1,2,3").unwrap(), vec![1, 2, 3]);
    assert_eq!(Vec::<String>::from_param("a,b,c").unwrap(), vec!["a", "b", "c"]);

    assert_eq!(vec![1u32, 2, 3].to_param(), "1,2,3");
    assert_eq!(vec!["a".to_string(), "b".to_string()].to_param(), "a,b");
}

#[test]
fn test_char_conversions() {
    assert_eq!(char::from_param("a").unwrap(), 'a');
    assert_eq!(char::from_param("中").unwrap(), '中');

    assert!(char::from_param("").is_err());
    assert!(char::from_param("ab").is_err());

    assert_eq!('x'.to_param(), "x");
}

#[test]
fn test_user_id() {
    assert_eq!(UserId::from_param("123").unwrap(), UserId(123));
    assert!(UserId::from_param("abc").is_err());

    assert_eq!(UserId(456).to_param(), "456");
}

#[test]
fn test_slug() {
    assert_eq!(Slug::from_param("hello-world_123").unwrap(), Slug("hello-world_123".to_string()));
    assert!(Slug::from_param("hello world").is_err());
    assert!(Slug::from_param("hello@world").is_err());

    assert_eq!(Slug("test-slug".to_string()).to_param(), "test-slug");
}

#[test]
fn test_email() {
    assert_eq!(
        Email::from_param("user@example.com").unwrap(),
        Email("user@example.com".to_string())
    );
    assert!(Email::from_param("invalid-email").is_err());
    assert!(Email::from_param("@example.com").is_err());
    assert!(Email::from_param("user@").is_err());

    assert_eq!(Email("test@example.com".to_string()).to_param(), "test@example.com");
}

#[test]
fn test_version() {
    assert_eq!(
        Version::from_param("1.2.3").unwrap(),
        Version {
            major: 1,
            minor: 2,
            patch: 3
        }
    );
    assert!(Version::from_param("1.2").is_err());
    assert!(Version::from_param("1.2.3.4").is_err());
    assert!(Version::from_param("a.b.c").is_err());

    assert_eq!(
        Version {
            major: 2,
            minor: 1,
            patch: 0
        }
        .to_param(),
        "2.1.0"
    );
}

#[test]
fn bool_is_case_insensitive() {
    assert!(bool::from_param("TRUE").unwrap());
    assert!(!bool::from_param("Off").unwrap());
    assert!(matches!(bool::from_param("maybe"), Err(ParseError::TypeConversion(_))));
}

#[test]
fn integer_edges() {
    assert_eq!(u8::from_param("255").unwrap(), 255);
    assert!(u8::from_param("256").is_err());
    assert_eq!(i8::from_param("-128").unwrap(), -128);
    assert!(i8::from_param("-129").is_err());
    assert_eq!(u64::from_param("18446744073709551615").unwrap(), u64::MAX);
    assert!(u64::from_param("18446744073709551616").is_err());
    assert_eq!(i64::from_param("-9223372036854775808").unwrap(), i64::MIN);
    assert_eq!(u32::from_param("+7").unwrap(), 7);
    assert!(u32::from_param("-0").is_err());
    assert!(u32::from_param("").is_err());
    assert!(i32::from_param("-").is_err());
    assert_eq!(i64::MIN.to_param(), "-9223372036854775808");
    assert_eq!(0u16.to_param(), "0");
    assert_eq!(usize::from_param("42").unwrap(), 42);
    assert_eq!(isize::from_param("-42").unwrap(), -42);
}

#[test]
fn list_items_are_trimmed() {
    assert_eq!(Vec::<u32>::from_param(" 1 , 2,\t3 ").unwrap(), vec![1, 2, 3]);
    assert!(Vec::<u32>::from_param("1,,2").is_err());
    assert_eq!(Option::<bool>::from_param("yes").unwrap(), Some(true));
    assert!(Option::<u32>::from_param("x").is_err());
}
