use pebble::files::{parent_path, path_is_valid, split_filename};
use pebble::maybe::MaybeAbsent;
use pebble::score::{log10_fixed, sqrt_fixed, SCALE};
use pebble::util::{parse_size, parse_u64, replace_from_start};

#[test]
fn test_basic_replacement() {
    assert_eq!(replace_from_start("foobar", "foo", "new"), "newbar");
    assert_eq!(
        replace_from_start("apple banana", "apple", "fruit"),
        "fruit banana"
    );
}

#[test]
fn test_no_replacement() {
    assert_eq!(replace_from_start("foobar", "bar", "new"), "foobar");
    assert_eq!(replace_from_start("test", "longer", "x"), "test");
}

#[test]
fn test_empty_from() {
    assert_eq!(replace_from_start("foobar", "", "prefix"), "prefixfoobar");
    assert_eq!(replace_from_start("", "", "x"), "x");
}

#[test]
fn test_empty_string() {
    assert_eq!(replace_from_start("", "abc", "x"), "");
    assert_eq!(replace_from_start("", "", ""), "");
}

#[test]
fn test_unicode() {
    assert_eq!(
        replace_from_start("ä½ å¥½å•Šä¸–ç•Œ", "ä½ å¥½å•Š", "ç¾å¥½çš„"),
        "ç¾å¥½çš„ä¸–ç•Œ"
    );
    assert_eq!(replace_from_start("ğŸ¦€ğŸ°", "ğŸ¦€", "ğŸ»"), "ğŸ»ğŸ°");
    assert_eq!(
        replace_from_start("ã“ã‚“ã«ã¡ã¯", "ã“ã‚“", "ãŠã¯"),
        "ãŠã¯ã«ã¡ã¯"
    );
}

#[test]
fn common_test_parse_size() {
    assert_eq!(parse_size(""), None);
    assert_eq!(parse_size("1"), Some(1));
    assert_eq!(parse_size("100"), Some(100));
    assert_eq!(parse_size("3k"), Some(3 * 1024));
    assert_eq!(parse_size("100M"), Some(100 * 1024 * 1024));
    assert_eq!(parse_size("5g"), Some(5 * 1024 * 1024 * 1024));
    assert_eq!(parse_size("5 g"), None);
    assert_eq!(parse_size("abc"), None);
}

#[test]
fn env_test_parse_size() {
    assert_eq!(parse_size(""), None);
    assert_eq!(parse_size("1"), Some(1));
    assert_eq!(parse_size("100"), Some(100));
    assert_eq!(parse_size("3k"), Some(3 * 1024));
    assert_eq!(parse_size("100M"), Some(100 * 1024 * 1024));
    assert_eq!(parse_size("5g"), Some(5 * 1024 * 1024 * 1024));
    assert_eq!(parse_size("5 g"), None);
    assert_eq!(parse_size("abc"), None);
}

#[test]
fn test_parse_size_limits() {
    assert_eq!(parse_size("18446744073709551615"), Some(u64::MAX));
    assert_eq!(parse_size("18446744073709551616"), None);
    assert_eq!(parse_size("18014398509481984k"), None);
    assert_eq!(parse_u64("+5"), Some(5));
    assert_eq!(parse_u64("+"), None);
    assert_eq!(parse_u64("5+"), None);
}

#[test]
fn test_parent_path() {
    assert_eq!(parent_path("a"), "");
    assert_eq!(parent_path("a/b"), "a");
    assert_eq!(parent_path("a/b/c"), "a/b");
}

#[test]
fn test_path_is_valid() {
    assert!(path_is_valid("foo"));
    assert!(path_is_valid("foo.jpg"));
    assert!(!path_is_valid("./foo.jpg"));
    assert!(!path_is_valid("/foo.jpg"));
    assert!(!path_is_valid("/foo/bar.jpg"));
}

#[test]
fn file_test_split_filename() {
    let filenames = vec![
        ("foo/bar.jpg", "foo/bar", "jpg"),
        ("foo.jpg", "foo", "jpg"),
        ("foo.JPG", "foo", "jpg"),
        (".foo.jpg", ".foo", "jpg"),
        (".Foo.JPG", ".Foo", "jpg"),
        (".foo", ".foo", ""),
        (".foo.tar.gz", ".foo.tar", "gz"),
        ("foo", "foo", ""),
    ];

    filenames.into_iter().for_each(|(input, name, ext)| {
        assert_eq!(split_filename(input), (name.to_string(), ext.to_string()));
    });
}

#[test]
fn upload_service_test_split_filename() {
    let filenames = vec![
        ("foo/bar.jpg", "foo/bar", "jpg"),
        ("foo.jpg", "foo", "jpg"),
        ("foo.JPG", "foo", "jpg"),
        (".foo.jpg", ".foo", "jpg"),
        (".Foo.JPG", ".Foo", "jpg"),
        (".foo", ".foo", ""),
        (".foo.tar.gz", ".foo.tar", "gz"),
        ("foo", "foo", ""),
    ];

    filenames.into_iter().for_each(|(input, name, ext)| {
        assert_eq!(split_filename(input), (name.to_string(), ext.to_string()));
    });
}

#[test]
fn test_maybe_absent() {
    let absent: MaybeAbsent<i32> = MaybeAbsent::Absent;
    assert!(absent.is_absent());
    assert!(!absent.is_present());
    assert_eq!(*absent.get_or(&7), 7);
    let present = MaybeAbsent::Present(5);
    assert!(present.is_present());
    assert_eq!(*present.get(), 5);
    assert_eq!(*present.get_or(&7), 5);
    assert!(present.as_ref().is_present());
    let doubled = present.map(|v| v * 2);
    assert_eq!(*doubled.get(), 10);
    let gone: MaybeAbsent<i32> = MaybeAbsent::Absent;
    assert!(gone.map(|v| v * 2).is_absent());
    let defaulted: MaybeAbsent<String> = MaybeAbsent::default();
    assert!(defaulted.is_absent());
}

#[test]
fn test_fixed_point_math() {
    // log10 in SCALE units is exact on powers of ten
    assert_eq!(log10_fixed(1), 0);
    assert_eq!(log10_fixed(10), SCALE);
    assert_eq!(log10_fixed(100), 2 * SCALE);
    assert_eq!(log10_fixed(1000), 3 * SCALE);
    // and strictly between on everything else
    assert!(log10_fixed(3) > 0 && log10_fixed(3) < SCALE);
    assert!(log10_fixed(30) > SCALE && log10_fixed(30) < 2 * SCALE);
    // sqrt in SCALE units is exact on squares
    assert_eq!(sqrt_fixed(1), SCALE);
    assert_eq!(sqrt_fixed(4), 2 * SCALE);
    assert_eq!(sqrt_fixed(9), 3 * SCALE);
    assert!(sqrt_fixed(2) > SCALE && sqrt_fixed(2) < 2 * SCALE);
}
