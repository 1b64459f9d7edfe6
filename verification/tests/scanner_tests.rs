use decomments::IntoWithoutComments;
use decomments::StripError;
use decomments::Type;
use decomments::config_for;
use decomments::strip;

fn chars_of(s: &str) -> Vec<char> {
    s.chars().collect()
}

fn strip_str(input: &str, lang: Type) -> Result<String, StripError> {
    strip(chars_of(input), config_for(lang)).map(|v| v.into_iter().collect())
}

#[test]
fn single_line_comment_stripped_newline_retained() {
    assert_eq!(
        strip_str("a // drop this\nb", Type::RustC),
        Ok(String::from("a \nb"))
    );
}

#[test]
fn string_immunity() {
    assert_eq!(
        strip_str("x = \"// keep me\"", Type::RustC),
        Ok(String::from("x = \"// keep me\""))
    );
}

#[test]
fn non_nesting_block_comment() {
    assert_eq!(strip_str("a /* x /* y */ b", Type::RustC), Ok(String::from("a  b")));
}

#[test]
fn nesting_block_comment() {
    assert_eq!(
        strip_str("a {- x {- y -} z -} b", Type::Haskell),
        Ok(String::from("a  b"))
    );
}

#[test]
fn unmatched_close_is_fatal() {
    assert_eq!(strip_str("a */ b", Type::RustC), Err(StripError::UnmatchedClose));
}

#[test]
fn escaped_quote_does_not_end_string() {
    assert_eq!(
        strip_str("\"a\\\"b\" // gone", Type::RustC),
        Ok(String::from("\"a\\\"b\" "))
    );
}

#[test]
fn escaped_backslash_then_quote_ends_string() {
    // the second backslash is itself escaped, so the quote closes the string
    // and the comment after it is stripped
    assert_eq!(
        strip_str("\"a\\\\\" // gone", Type::RustC),
        Ok(String::from("\"a\\\\\" "))
    );
}

#[test]
fn end_of_input_mid_comment_is_lenient() {
    assert_eq!(strip_str("a /* unterminated", Type::RustC), Ok(String::from("a ")));
}

#[test]
fn end_of_input_mid_string_is_lenient() {
    assert_eq!(strip_str("x = \"open", Type::RustC), Ok(String::from("x = \"open")));
}

#[test]
fn identity_on_comment_free_text() {
    let text = "fn main() { let x = 1 + 2; }\n";
    let once = strip_str(text, Type::RustC).unwrap();
    assert_eq!(once, text);
    let twice = strip_str(&once, Type::RustC).unwrap();
    assert_eq!(twice, once);
}

#[test]
fn empty_input_gives_empty_output() {
    assert_eq!(strip_str("", Type::RustC), Ok(String::new()));
    assert_eq!(strip_str("", Type::Python), Ok(String::new()));
    assert_eq!(strip_str("", Type::Haskell), Ok(String::new()));
    assert_eq!(strip_str("", Type::Markup), Ok(String::new()));
}

#[test]
fn python_hash_comment() {
    assert_eq!(strip_str("x = 1 # note\ny = 2", Type::Python), Ok(String::from("x = 1 \ny = 2")));
}

#[test]
fn python_docstring_stripped() {
    assert_eq!(strip_str("x'''doc'''y", Type::Python), Ok(String::from("xy")));
    assert_eq!(strip_str("x\"\"\"doc\"\"\"y", Type::Python), Ok(String::from("xy")));
}

#[test]
fn python_lone_triple_quote_opens_to_end() {
    // open and close pattern are the same, so a lone triple quote reads as an
    // opener and the rest of the input is stripped
    assert_eq!(strip_str("a\"\"\"b", Type::Python), Ok(String::from("a")));
}

#[test]
fn haskell_single_line_comment() {
    assert_eq!(strip_str("f x -- note\ng y", Type::Haskell), Ok(String::from("f x \ng y")));
}

#[test]
fn markup_comment() {
    assert_eq!(
        strip_str("<p>a</p><!-- hidden --><p>b</p>", Type::Markup),
        Ok(String::from("<p>a</p><p>b</p>"))
    );
}

#[test]
fn backtick_triple_opens_string_when_lookahead_allows() {
    // the Python table's lookahead width is three, so the backtick triple is
    // recognized: it emits one backtick and a single backtick closes it
    assert_eq!(strip_str("```a# b```", Type::Python), Ok(String::from("`a# b```")));
}

#[test]
fn backtick_triple_not_seen_with_narrow_lookahead() {
    // the code-like table's longest pattern is two characters, so a backtick
    // triple is never recognized and the backticks pass through unchanged
    assert_eq!(strip_str("``` /* x */ a", Type::RustC), Ok(String::from("```  a")));
}

#[test]
fn quote_inside_comment_does_not_open_string() {
    assert_eq!(strip_str("a /* \" */ b // \"\nc", Type::RustC), Ok(String::from("a  b \nc")));
}

#[test]
fn iteration_matches_whole_strip() {
    let input = "a /* x */ b // y\nz \"s // t\"";
    let mut w = chars_of(input).purge_commentaries(config_for(Type::RustC));
    let mut collected = String::new();
    loop {
        match w.next() {
            Ok(Some(c)) => collected.push(c),
            Ok(None) => break,
            Err(e) => panic!("unexpected error: {:?}", e),
        }
    }
    assert_eq!(Ok(collected), strip_str(input, Type::RustC));
}

#[test]
fn config_tables_hold_expected_rules() {
    let rustc = config_for(Type::RustC);
    assert_eq!(rustc.len(), 2);
    assert_eq!(rustc[0].open_pat, chars_of("//"));
    assert_eq!(rustc[0].close_pat, chars_of("\n"));
    assert!(!rustc[0].nests);
    assert!(rustc[0].keep_close_pat);
    assert!(rustc[0].allow_close_pat);
    assert_eq!(rustc[1].open_pat, chars_of("/*"));
    assert_eq!(rustc[1].close_pat, chars_of("*/"));
    assert!(!rustc[1].nests);
    assert!(!rustc[1].keep_close_pat);
    assert!(!rustc[1].allow_close_pat);

    let python = config_for(Type::Python);
    assert_eq!(python.len(), 3);
    assert_eq!(python[0].open_pat, chars_of("#"));
    assert_eq!(python[1].open_pat, chars_of("'''"));
    assert_eq!(python[2].open_pat, chars_of("\"\"\""));

    let haskell = config_for(Type::Haskell);
    assert_eq!(haskell.len(), 2);
    assert_eq!(haskell[0].open_pat, chars_of("--"));
    assert_eq!(haskell[1].open_pat, chars_of("{-"));
    assert!(haskell[1].nests);

    let markup = config_for(Type::Markup);
    assert_eq!(markup.len(), 1);
    assert_eq!(markup[0].open_pat, chars_of("<!--"));
    assert_eq!(markup[0].close_pat, chars_of("-->"));
}

#[test]
fn deep_nesting_closes_only_at_depth_zero() {
    assert_eq!(
        strip_str("a {- {- {- x -} -} y -} b", Type::Haskell),
        Ok(String::from("a  b"))
    );
}

#[test]
fn unterminated_nested_comment_is_lenient() {
    assert_eq!(strip_str("a {- x {- y -} z", Type::Haskell), Ok(String::from("a ")));
}
