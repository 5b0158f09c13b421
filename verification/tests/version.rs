use perl_wrapper::text::CharClass;
use perl_wrapper::version::{clean_version_string, extract_version_value, find_assignment};
use perl_wrapper::version::{parse_package_statement_version, parse_version};
use perl_wrapper::version::{parse_version_assignment, take_number, take_numeric_version};

fn chars(s: &str) -> Vec<char> {
    s.chars().collect()
}

#[test]
fn parse_version_recognises_common_shapes() {
    let cases = [
        ("our $VERSION = '1.23';", Some("1.23")),
        ("$VERSION = \"0.001\";", Some("0.001")),
        ("our $VERSION = '0.001_02'; # VERSION", Some("0.001_02")),
        ("$Foo::Bar::VERSION = '4.5';", Some("4.5")),
        ("  our  $VERSION  =  1.5 ;", Some("1.5")),
        (
            "use version; our $VERSION = version->declare('v1.2.3');",
            Some("v1.2.3"),
        ),
        ("our $VERSION = qv('2.0.1');", Some("2.0.1")),
        ("package Foo::Bar 1.802;", Some("1.802")),
        ("package Foo::Bar v2.3.4 {", Some("v2.3.4")),
        ("package Foo::Bar;", None),
        ("if ($VERSION == 1) { }", None),
        ("$VERSION =~ s/_//g;", None),
        ("# our $VERSION = '9.9';", None),
        ("sub VERSION { return 3 }", None),
    ];
    for (src, want) in cases {
        assert_eq!(parse_version(src).as_deref(), want, "parse_version({src:?})");
    }
}

#[test]
fn parse_version_skips_pod_and_data_sections() {
    let src = "package Foo;\n\
               =pod\n\
               our $VERSION = '9.99';\n\
               =cut\n\
               our $VERSION = '1.00';\n\
               __END__\n\
               our $VERSION = '2.00';\n";
    assert_eq!(parse_version(src).as_deref(), Some("1.00"));
}

#[test]
fn parse_version_none_when_absent() {
    let src = "package Foo::Bar;\nuse strict;\nsub new { bless {}, shift }\n1;\n";
    assert_eq!(parse_version(src), None);
}

#[test]
fn first_declaration_in_code_wins() {
    assert_eq!(parse_version("our $VERSION = 1;\nour $VERSION = 2;\n").as_deref(), Some("1"));
    assert_eq!(parse_version("our $VERSION = 'x';\n$VERSION = '3';\n").as_deref(), Some("3"));
    assert_eq!(parse_version("package A 1.0; our $VERSION = '2.0';").as_deref(), Some("1.0"));
    assert_eq!(parse_version("__DATA__\nour $VERSION = '2.0';"), None);
    assert_eq!(parse_version("__END__  \t\r\nour $VERSION = '2.0';"), None);
    assert_eq!(parse_version(" __END__\nour $VERSION = '2.0';").as_deref(), Some("2.0"));
    assert_eq!(parse_version("=head1 X\n__END__\n=cut\n$VERSION = 4").as_deref(), Some("4"));
    assert_eq!(parse_version("=1\n$VERSION = 4").as_deref(), Some("4"));
    assert_eq!(parse_version("=pod\n$VERSION = 4"), None);
    assert_eq!(parse_version("=cut\n$VERSION = 4\n=cut\n$VERSION = 5").as_deref(), Some("5"));
}

#[test]
fn line_endings_are_not_part_of_a_line() {
    assert_eq!(parse_version("package A;\r\n$VERSION = 1.2\r\n").as_deref(), Some("1.2"));
    assert_eq!(parse_version("=pod\r\n=cut\r\n$VERSION = '7'\r").as_deref(), Some("7"));
}

#[test]
fn version_must_be_a_sigilled_whole_word() {
    let find = |s: &str| parse_version_assignment(&chars(s));
    assert_eq!(find("*VERSION = \\'1.01';").as_deref(), Some("1.01"));
    assert_eq!(find("$Foo'Bar::VERSION = 2").as_deref(), Some("2"));
    assert_eq!(find("VERSION = 2"), None);
    assert_eq!(find("@VERSION = 2"), None);
    assert_eq!(find("$VERSIONS = 2"), None);
    assert_eq!(find("$VERSION_OK = 2"), None);
    assert_eq!(find("$XVERSION = 2"), None);
    assert_eq!(find("our $MIN_VERSION = '5.10';"), None);
    assert_eq!(find("our $MIN_VERSION = '5.10'; our $VERSION = 1;").as_deref(), Some("1"));
    assert_eq!(find("$Foo::MIN_VERSION = 2"), None);
    assert_eq!(find("$Foo'VERSION = 2").as_deref(), Some("2"));
    assert_eq!(find("$::VERSION = 2").as_deref(), Some("2"));
    assert_eq!(find("$Foo:VERSION = 2"), None);
    assert_eq!(find("$VERSION; $VERSION = 3").as_deref(), Some("3"));
    assert_eq!(find("$VERSION # = 3"), None);
    assert_eq!(find("$\u{e9}VERSION = 3"), None);
}

#[test]
fn assignments_are_told_from_other_operators() {
    let find = |s: &str| find_assignment(&chars(s));
    assert_eq!(find(" = 1"), Some(1));
    assert_eq!(find("=="), None);
    assert_eq!(find("==="), None);
    assert_eq!(find(" >= 1"), None);
    assert_eq!(find(" <= 1"), None);
    assert_eq!(find(" != 1"), None);
    assert_eq!(find(" <=> 1"), None);
    assert_eq!(find(" <<= 2"), Some(3));
    assert_eq!(find(">>= 2"), Some(2));
    assert_eq!(find("<>= 2"), None);
    assert_eq!(find(">= 1; x = 2"), None);
    assert_eq!(find(" ||= 1"), Some(3));
    assert_eq!(find("=~="), Some(2));
    assert_eq!(parse_version("if ($VERSION >= 1.5) { }"), None);
    assert_eq!(parse_version("die unless $VERSION <= '2.0';"), None);
    assert_eq!(parse_version("return $VERSION != '2.0';"), None);
    assert_eq!(find(" => 1, x = 2"), Some(9));
    assert_eq!(find(" =~ s/a/b/;"), None);
    assert_eq!(find("; x = 1"), None);
    assert_eq!(find("# x = 1"), None);
    assert_eq!(find(""), None);
}

#[test]
fn values_are_read_as_literals() {
    let value = |s: &str| extract_version_value(&chars(s));
    assert_eq!(value("  '1.0' . 'x'").as_deref(), Some("1.0"));
    assert_eq!(value("\"1.0\"").as_deref(), Some("1.0"));
    assert_eq!(value("'1.0"), None);
    assert_eq!(value("v1.2;").as_deref(), Some("v1.2"));
    assert_eq!(value("V1.2;").as_deref(), Some("V1.2"));
    assert_eq!(value("v;"), None);
    assert_eq!(value("version('3')").as_deref(), Some("3"));
    assert_eq!(value("sprintf('%d', 1)"), None);
    assert_eq!(value("$Other::VERSION"), None);
    assert_eq!(value("$x; warn 'v2';"), None);
    assert_eq!(value("; '2'"), None);
    assert_eq!(
        value("do { require version; version->declare('v1.2.3') };").as_deref(),
        Some("v1.2.3")
    );
    assert_eq!(value("foo(sub { 1; }, '1.0')").as_deref(), Some("1.0"));
    assert_eq!(value("foo(sub { 1; }); warn '1.0';"), None);
    assert_eq!(value("$x[0]{a;b}) ; '1.0'"), None);
    assert_eq!(value("qv(\"1.2;3\"); 'x'").as_deref(), Some("1.2;3"));
    assert_eq!(parse_version("$VERSION = $x; warn 'v2';"), None);
    assert_eq!(parse_version("$VERSION = $x; $VERSION = '2';").as_deref(), Some("2"));
    assert_eq!(value(""), None);
}

#[test]
fn package_statements_carry_numeric_versions() {
    let version = |s: &str| parse_package_statement_version(&chars(s));
    assert_eq!(version("package Foo 1.5").as_deref(), Some("1.5"));
    assert_eq!(version("package\tFoo'Bar  1_0 ;").as_deref(), Some("1_0"));
    assert_eq!(parse_version("  package\t Foo\u{a0} 1.2_ {").as_deref(), Some("1.2"));
    assert_eq!(version("package Foo 1.5 x;"), None);
    assert_eq!(version("packageFoo 1.5;"), None);
    assert_eq!(version("package;"), None);
    assert_eq!(version("package - 1;"), None);
    assert_eq!(version("package Foo v;"), None);
    assert_eq!(version("package Foo V {"), None);
    assert_eq!(take_numeric_version(&chars("1.2. {")).as_deref(), Some("1.2"));
    assert_eq!(take_number(&chars("v1.2_3x")), 6);
    assert_eq!(take_number(&chars("x1")), 0);
}

#[test]
fn literals_are_cleaned_or_rejected() {
    let clean = |s: &str| clean_version_string(&chars(s));
    assert_eq!(clean(" 1.2_\u{a0}").as_deref(), Some("1.2"));
    assert_eq!(clean("1._._").as_deref(), Some("1"));
    assert_eq!(clean("\u{3000}v3\u{2028}").as_deref(), Some("v3"));
    assert_eq!(clean("1%"), None);
    assert_eq!(clean("$1"), None);
    assert_eq!(clean("1@"), None);
    assert_eq!(clean("abc"), None);
    assert_eq!(clean("\u{0661}"), None);
    assert_eq!(clean(" ._ "), None);
    assert_eq!(clean(""), None);
}

#[test]
fn white_space_is_the_unicode_property() {
    let spaces = [
        0x9, 0xa, 0xb, 0xc, 0xd, 0x20, 0x85, 0xa0, 0x1680, 0x2000, 0x2001, 0x2002, 0x2003, 0x2004,
        0x2005, 0x2006, 0x2007, 0x2008, 0x2009, 0x200a, 0x2028, 0x2029, 0x202f, 0x205f, 0x3000,
    ];
    for c in '\0'..=char::MAX {
        assert_eq!(CharClass::Space.contains(c), spaces.contains(&(c as u32)), "{c:?}");
    }
}

#[test]
fn versions_stand_in_the_source_as_they_are() {
    let source = "use x;\n$VERSION = ' 1.2_3. ';\n";
    let version = parse_version(source).unwrap();
    assert_eq!(version, "1.2_3");
    assert!(source.contains(&version));
    assert!(source.lines().any(|line| line.contains(&version)));
}

#[test]
fn pod_and_comments_can_be_taken_out() {
    let code = "package A;\n$VERSION = 2;\n";
    let with_pod = "package A;\n=head1 N\n$VERSION = 1;\n=cut\n$VERSION = 2;\n";
    let with_comment = "package A;\n  # $VERSION = 1;\n$VERSION = 2;\n";
    assert_eq!(parse_version(code), parse_version(with_pod));
    assert_eq!(parse_version(code), parse_version(with_comment));
    let comment_in_pod = "package A;\n=pod\n# =cut\n$VERSION = 1;\n=cut\n$VERSION = 2;\n";
    assert_eq!(parse_version(code), parse_version(comment_in_pod));
    assert_eq!(parse_version("package A;\n__END__\n$VERSION = 2;\n"), parse_version("package A;\n"));
}

#[test]
fn assigned_versions_are_read_whatever_stands_around() {
    let lines = [
        "our ($X, $VERSION) = '1.2_';",
        "BEGIN { *A::B'VERSION=\"1.2\" }",
        "$VERSION\t=\u{2003}qv( ' 1.2 ' ); # '3'",
        "if (X_VERSIO) { $VERSION = 1.2. }",
        "our $VERSION = do { require version; version->declare('1.2') };",
    ];
    for line in lines {
        assert_eq!(parse_version(line).as_deref(), Some("1.2"), "{line:?}");
    }
}
