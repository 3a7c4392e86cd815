use wordcalc::stream::numeral::{number_of, word_of};
use wordcalc::stream::{InputStream, ParseStream, WordTokenStream};
use wordcalc::text::{chars_of, parse_unsigned, push_decimal, push_repeated, spells};
use wordcalc::token::{ParseToken, WordToken};
use wordcalc::types::{Operator, StartEnd};

fn chars(text: &str) -> Vec<char> {
    text.chars().collect()
}

#[test]
fn chars_of_gives_every_character() {
    assert_eq!(chars_of(""), Vec::<char>::new());
    assert_eq!(chars_of("zwölf+1"), vec!['z', 'w', 'ö', 'l', 'f', '+', '1']);
}

#[test]
fn spells_compares_whole_words() {
    assert!(spells(&chars("fünf"), "fünf"));
    assert!(spells(&chars(""), ""));
    assert!(!spells(&chars("fünf"), "fünfe"));
    assert!(!spells(&chars("fünfe"), "fünf"));
    assert!(!spells(&chars("funf"), "fünf"));
    assert!(!spells(&chars(""), "a"));
    assert!(!spells(&chars("a"), ""));
}

#[test]
fn push_repeated_appends_the_character_n_times() {
    let mut text = "ab".to_string();
    push_repeated(&mut text, '^', 3);
    assert_eq!(text, "ab^^^");
    push_repeated(&mut text, ' ', 0);
    assert_eq!(text, "ab^^^");
    push_repeated(&mut text, '\u{204E}', 2);
    assert_eq!(text, "ab^^^\u{204E}\u{204E}");
}

#[test]
fn push_decimal_appends_the_numeral() {
    let mut text = "n=".to_string();
    push_decimal(&mut text, 0);
    assert_eq!(text, "n=0");
    push_decimal(&mut text, 9);
    push_decimal(&mut text, 10);
    push_decimal(&mut text, 1203);
    assert_eq!(text, "n=09101203");
    let mut large = String::new();
    push_decimal(&mut large, u128::MAX);
    assert_eq!(large, "340282366920938463463374607431768211455");
}

#[test]
fn parse_unsigned_reads_what_fits_64_bits() {
    assert_eq!(parse_unsigned(&chars("0")), Some(0));
    assert_eq!(parse_unsigned(&chars("000")), Some(0));
    assert_eq!(parse_unsigned(&chars("42")), Some(42));
    assert_eq!(parse_unsigned(&chars("+42")), Some(42));
    assert_eq!(parse_unsigned(&chars("18446744073709551615")), Some(u64::MAX));
    assert_eq!(parse_unsigned(&chars("018446744073709551615")), Some(u64::MAX));
    assert_eq!(parse_unsigned(&chars("18446744073709551616")), None);
    assert_eq!(parse_unsigned(&chars("184467440737095516150")), None);
    assert_eq!(parse_unsigned(&chars("")), None);
    assert_eq!(parse_unsigned(&chars("+")), None);
    assert_eq!(parse_unsigned(&chars("++1")), None);
    assert_eq!(parse_unsigned(&chars("4+2")), None);
    assert_eq!(parse_unsigned(&chars("4 ")), None);
    assert_eq!(parse_unsigned(&chars("٤")), None);
}

#[test]
fn words_and_numbers_decode_from_characters() {
    let range = StartEnd::from(0, 4);
    assert_eq!(
        word_of(&chars("mal"), range),
        Ok(ParseToken::Op((Operator::Multiply, range)))
    );
    assert_eq!(
        word_of(&chars("zweihundertdreizehn"), range),
        Ok(ParseToken::Number((213, range)))
    );
    assert_eq!(
        word_of(&chars("zweihundertdreizehnx"), range),
        Err("unbekanntes Wort".to_string())
    );
    assert_eq!(
        number_of(&chars("0213"), range),
        Ok(ParseToken::Number((213, range)))
    );
    assert_eq!(
        number_of(&chars("2x3"), range),
        Err("konnte Zahl nicht parsen".to_string())
    );
}

#[test]
fn word_stream_from_characters_is_the_same_as_from_text() {
    for word in ["plus", "siebzig", "dreiundzwanzig", "nichts", "", "hunderteins"] {
        assert_eq!(
            WordTokenStream::from_chars(&chars(word)),
            WordTokenStream::from(word),
            "{}",
            word
        );
    }
    let stream = WordTokenStream::from_chars(&chars("hunderteins")).unwrap();
    assert_eq!(stream.get(0), WordToken::Hundert);
    assert_eq!(stream.get(1), WordToken::Eins);
}

#[test]
fn parse_stream_keeps_its_input() {
    let input = InputStream::from("1 + zwei");
    let stream = ParseStream::from(&input).unwrap();
    assert_eq!(stream.input(), &input);
    assert_eq!(stream.len(), 3);
    assert_eq!(ParseStream::new().input(), &InputStream::new());
}
