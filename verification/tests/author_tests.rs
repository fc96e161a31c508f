use git_coauthors::author::{Author, ParseError};

fn author(alias: &str, name: &str, email: &str) -> Author {
    Author { alias: alias.to_string(), name: name.to_string(), email: email.to_string() }
}

#[test]
fn test_parse_alias() {
    let line = "doggo | Really Good Doggo | doggo113@email.co.uk";
    let author = Author::parse(line).unwrap();
    assert_eq!(author.alias, "doggo");
}

#[test]
fn test_parse_name() {
    let line = "doggo | Really Good Doggo | doggo113@email.co.uk";
    let author = Author::parse(line).unwrap();
    assert_eq!(author.name, "Really Good Doggo");
}

#[test]
fn test_parse_email() {
    let line = "doggo | Really Good Doggo | doggo113@email.co.uk";
    let author = Author::parse(line).unwrap();
    assert_eq!(author.email, "doggo113@email.co.uk");
}

#[test]
fn test_parse_unexpected_format() {
    let line = "doggo | ";
    assert_eq!(Author::parse(line), Err(ParseError));
}

#[test]
fn parse_trims_incidental_whitespace() {
    let parsed = Author::parse("  gd | Good Dog | good_dog@gmail.com  ").unwrap();
    assert_eq!(parsed, author("gd", "Good Dog", "good_dog@gmail.com"));
}

#[test]
fn parse_treats_unicode_whitespace_as_whitespace() {
    let parsed = Author::parse("\u{a0}gd | Good\u{a0}Dog | good_dog@gmail.com\u{2003}").unwrap();
    assert_eq!(parsed, author("gd", "Good\u{a0}Dog", "good_dog@gmail.com"));
    assert_eq!(Author::parse("g\u{a0}d | Good Dog | good_dog@gmail.com"), Err(ParseError));
    assert_eq!(Author::parse("gd | Good Dog | good\u{2009}dog@gmail.com"), Err(ParseError));
}

#[test]
fn parse_rejects_missing_separators() {
    assert_eq!(Author::parse("doggo"), Err(ParseError));
    assert_eq!(Author::parse(""), Err(ParseError));
    assert_eq!(Author::parse("   "), Err(ParseError));
    assert_eq!(Author::parse("gd | Good Dog"), Err(ParseError));
}

#[test]
fn parse_rejects_empty_fields() {
    assert_eq!(Author::parse(" | Good Dog | good_dog@gmail.com"), Err(ParseError));
    assert_eq!(Author::parse("gd |  | good_dog@gmail.com"), Err(ParseError));
    assert_eq!(Author::parse("gd | Good Dog | "), Err(ParseError));
    assert_eq!(Author::parse("||"), Err(ParseError));
}

#[test]
fn parse_rejects_whitespace_in_tokens() {
    assert_eq!(Author::parse("g d | Good Dog | good_dog@gmail.com"), Err(ParseError));
    assert_eq!(Author::parse("gd | Good Dog | good dog@gmail.com"), Err(ParseError));
}

#[test]
fn parse_allows_pipes_in_tokens() {
    let parsed = Author::parse("a|b | c | d").unwrap();
    assert_eq!(parsed, author("a|b", "c", "d"));
    let bar_email = Author::parse("a | n | |").unwrap();
    assert_eq!(bar_email, author("a", "n", "|"));
}

#[test]
fn roundtrip_with_pipes_in_tokens() {
    let a = author("a|b", "n", "c|d");
    assert_eq!(Author::parse(&a.roundtrip_line()).unwrap(), a);
}

#[test]
fn parse_keeps_internal_name_whitespace_and_pipes() {
    let parsed = Author::parse("gd | Good  Old   Dog | gd@x.io").unwrap();
    assert_eq!(parsed.name, "Good  Old   Dog");
    let piped = Author::parse("gd | Good | Dog | gd@x.io").unwrap();
    assert_eq!(piped.name, "Good | Dog");
}

#[test]
fn roundtrip_storage_form() {
    let a = author("gd", "Good Dog", "good_dog@gmail.com");
    let line = a.roundtrip_line();
    assert_eq!(line, "gd | Good Dog | good_dog@gmail.com");
    assert_eq!(Author::parse(&line).unwrap(), a);
}

#[test]
fn roundtrip_with_unusual_name() {
    let a = author("x", "A | B  C", "x@y.z");
    assert_eq!(Author::parse(&a.roundtrip_line()).unwrap(), a);
}

#[test]
fn trailer_form() {
    let a = author("gd", "Good Dog", "good_dog@gmail.com");
    assert_eq!(a.trailer_line(), "Co-authored-by: Good Dog <good_dog@gmail.com>");
}

#[test]
fn display_form() {
    let a = author("gd", "Good Dog", "good_dog@gmail.com");
    assert_eq!(a.display_line(), "[gd] Good Dog <good_dog@gmail.com>");
}
