use wordcalc::error::{Error, ErrorStruct};
use wordcalc::stream::{parse_number, parse_word, InputStream, ParseStream, WordTokenStream};
use wordcalc::token::{InputToken, ParseToken, WordToken};
use wordcalc::types::{Operator, StartEnd};

fn tokens_of(text: &str) -> Vec<ParseToken> {
    let input = InputStream::from(text);
    let stream = ParseStream::from(&input).unwrap();
    stream.as_slice().to_vec()
}

fn diagnostics_of(text: &str) -> Vec<ErrorStruct> {
    let input = InputStream::from(text);
    match ParseStream::from(&input) {
        Err(Error::TokenStream(kept, errors)) => {
            assert_eq!(kept, input);
            errors
        }
        other => panic!("expected diagnostics, got {:?}", other),
    }
}

fn number_of_word(word: &str) -> i64 {
    match parse_word(word, StartEnd::from(0, 0)) {
        Ok(ParseToken::Number((n, _))) => n,
        other => panic!("expected a number for {}, got {:?}", word, other),
    }
}

fn unknown(word: &str) {
    assert_eq!(
        parse_word(word, StartEnd::from(0, 0)),
        Err("unbekanntes Wort".to_string()),
        "{}",
        word
    );
}

#[test]
fn classifies_every_character() {
    let input = InputStream::from("a 1+ß?\tZ");
    let got: Vec<InputToken> = input.iter().copied().collect();
    assert_eq!(
        got,
        vec![
            InputToken::Letter('a'),
            InputToken::Space,
            InputToken::Digit('1'),
            InputToken::Symbol('+'),
            InputToken::Letter('ß'),
            InputToken::Whatever('?'),
            InputToken::Whatever('\t'),
            InputToken::Whatever('Z'),
        ]
    );
    assert_eq!(input.len(), 8);
    assert_eq!(input.get(3), InputToken::Symbol('+'));
}

#[test]
fn classifies_umlauts_as_letters_and_all_six_symbols() {
    let input = InputStream::from("öäü+-*/()09az");
    let got: Vec<InputToken> = input.iter().copied().collect();
    assert_eq!(
        got,
        vec![
            InputToken::Letter('ö'),
            InputToken::Letter('ä'),
            InputToken::Letter('ü'),
            InputToken::Symbol('+'),
            InputToken::Symbol('-'),
            InputToken::Symbol('*'),
            InputToken::Symbol('/'),
            InputToken::Symbol('('),
            InputToken::Symbol(')'),
            InputToken::Digit('0'),
            InputToken::Digit('9'),
            InputToken::Letter('a'),
            InputToken::Letter('z'),
        ]
    );
}

#[test]
fn new_input_stream_is_empty() {
    assert_eq!(InputStream::new().len(), 0);
    assert_eq!(InputStream::new(), InputStream::from(""));
}

#[test]
fn input_stream_clone_is_equal() {
    let input = InputStream::from("1 + zwei");
    assert_eq!(input.clone(), input);
}

#[test]
fn keywords_are_single_tokens() {
    let expect = [
        ("plus", WordToken::Plus),
        ("minus", WordToken::Minus),
        ("mal", WordToken::Multiply),
        ("durch", WordToken::Divide),
        ("auf", WordToken::Open),
        ("zu", WordToken::Close),
        ("eins", WordToken::Number(1)),
        ("zwei", WordToken::Number(2)),
        ("drei", WordToken::Number(3)),
        ("vier", WordToken::Number(4)),
        ("fünf", WordToken::Number(5)),
        ("sechs", WordToken::Number(6)),
        ("sieben", WordToken::Number(7)),
        ("acht", WordToken::Number(8)),
        ("neun", WordToken::Number(9)),
        ("zehn", WordToken::Number(10)),
        ("elf", WordToken::Number(11)),
        ("zwölf", WordToken::Number(12)),
        ("zwanzig", WordToken::Number(20)),
        ("sechzig", WordToken::Number(60)),
        ("siebzig", WordToken::Number(70)),
    ];
    for (word, token) in expect {
        assert_eq!(WordTokenStream::tokinize_single(word), Some(token), "{}", word);
        let stream = WordTokenStream::from(word).unwrap();
        assert_eq!(stream.len(), 1);
        assert_eq!(stream.get(0), token);
    }
    assert_eq!(WordTokenStream::tokinize_single("ein"), None);
    assert_eq!(WordTokenStream::tokinize_single("hundert"), None);
    assert_eq!(WordTokenStream::tokinize_single(""), None);
}

#[test]
fn morphemes_are_recognised() {
    let expect = [
        ("ein", WordToken::Ein),
        ("eins", WordToken::Eins),
        ("zwei", WordToken::Number(2)),
        ("drei", WordToken::Number(3)),
        ("vier", WordToken::Number(4)),
        ("fünf", WordToken::Number(5)),
        ("sechzig", WordToken::Sechzig),
        ("sechs", WordToken::Number(6)),
        ("siebzig", WordToken::Siebzig),
        ("sieben", WordToken::Number(7)),
        ("acht", WordToken::Number(8)),
        ("neun", WordToken::Number(9)),
        ("zehn", WordToken::Zehn),
        ("elf", WordToken::Elf),
        ("zwölf", WordToken::Zwoelf),
        ("zwanzig", WordToken::Zwanzig),
        ("zig", WordToken::Zig),
        ("ßig", WordToken::SSig),
        ("hundert", WordToken::Hundert),
        ("tausend", WordToken::Tausend),
        ("und", WordToken::Und),
    ];
    for (word, token) in expect {
        assert_eq!(WordTokenStream::tokinize(word), Some(token), "{}", word);
    }
    assert_eq!(WordTokenStream::tokinize("plus"), None);
    assert_eq!(WordTokenStream::tokinize("sech"), None);
}

#[test]
fn compound_word_is_split_into_morphemes() {
    let stream = WordTokenStream::from("eintausendfünfhundertdreiundsiebzig").unwrap();
    let got: Vec<WordToken> = stream.iter().copied().collect();
    assert_eq!(
        got,
        vec![
            WordToken::Ein,
            WordToken::Tausend,
            WordToken::Number(5),
            WordToken::Hundert,
            WordToken::Number(3),
            WordToken::Und,
            WordToken::Siebzig,
        ]
    );
    assert_eq!(stream.len(), 7);
}

#[test]
fn ein_before_s_reads_on_to_eins() {
    let stream = WordTokenStream::from("hunderteinsund").unwrap();
    let got: Vec<WordToken> = stream.iter().copied().collect();
    assert_eq!(got, vec![WordToken::Hundert, WordToken::Eins, WordToken::Und]);
}

#[test]
fn words_that_do_not_split_are_refused() {
    assert_eq!(WordTokenStream::from(""), None);
    assert_eq!(WordTokenStream::from("hallo"), None);
    assert_eq!(WordTokenStream::from("hundert"), None);
    assert_eq!(WordTokenStream::from("ein"), None);
    assert_eq!(WordTokenStream::from("hundertein"), None);
    assert_eq!(WordTokenStream::from("dreihundertx"), None);
    assert_eq!(WordTokenStream::from("sechzehn"), None);
}

#[test]
fn triple_cursor_yields_neighbours() {
    let stream = WordTokenStream::from("dreiundzwanzig").unwrap();
    let mut iter = stream.iter_triple();
    assert_eq!(
        iter.next(),
        Some((None, Some(&WordToken::Number(3)), Some(&WordToken::Und)))
    );
    assert_eq!(
        iter.next(),
        Some((
            Some(&WordToken::Number(3)),
            Some(&WordToken::Und),
            Some(&WordToken::Zwanzig)
        ))
    );
    assert_eq!(
        iter.next(),
        Some((Some(&WordToken::Und), Some(&WordToken::Zwanzig), None))
    );
    assert_eq!(iter.next(), None);
    assert_eq!(iter.next(), None);
    assert_eq!(iter.count, 3);
}

#[test]
fn keyword_words_become_tokens_with_the_given_range() {
    let range = StartEnd::from(3, 7);
    assert_eq!(parse_word("plus", range), Ok(ParseToken::Op((Operator::Plus, range))));
    assert_eq!(parse_word("minus", range), Ok(ParseToken::Op((Operator::Minus, range))));
    assert_eq!(parse_word("mal", range), Ok(ParseToken::Op((Operator::Multiply, range))));
    assert_eq!(parse_word("durch", range), Ok(ParseToken::Op((Operator::Divide, range))));
    assert_eq!(parse_word("auf", range), Ok(ParseToken::Open(range)));
    assert_eq!(parse_word("zu", range), Ok(ParseToken::Close(range)));
    assert_eq!(parse_word("drei", range), Ok(ParseToken::Number((3, range))));
    assert_eq!(parse_word("siebzig", range), Ok(ParseToken::Number((70, range))));
}

#[test]
fn compound_numerals_decode_by_place_value() {
    assert_eq!(number_of_word("dreizehn"), 13);
    assert_eq!(number_of_word("neunzehn"), 19);
    assert_eq!(number_of_word("einundzwanzig"), 21);
    assert_eq!(number_of_word("dreißig"), 30);
    assert_eq!(number_of_word("vierzig"), 40);
    assert_eq!(number_of_word("zweiundvierzig"), 42);
    assert_eq!(number_of_word("dreiunddreißig"), 33);
    assert_eq!(number_of_word("neunundneunzig"), 99);
    assert_eq!(number_of_word("einhundert"), 100);
    assert_eq!(number_of_word("einhundertfünf"), 105);
    assert_eq!(number_of_word("zweihundertelf"), 211);
    assert_eq!(number_of_word("dreihundertzwanzig"), 320);
    assert_eq!(number_of_word("sechshunderteinundvierzig"), 641);
    assert_eq!(number_of_word("eintausend"), 1000);
    assert_eq!(number_of_word("eintausenddreihundertfünf"), 1305);
    assert_eq!(number_of_word("eintausendfünfhundertdreiundsiebzig"), 1573);
    assert_eq!(number_of_word("zwanzigtausend"), 20000);
    assert_eq!(number_of_word("dreihunderttausend"), 300000);
    assert_eq!(number_of_word("zweitausendzwölf"), 2012);
    assert_eq!(number_of_word("vierzigtausendeins"), 40001);
    assert_eq!(number_of_word("zehntausend"), 10000);
    assert_eq!(number_of_word("eintausendeinhunderteinundsechzig"), 1161);
}

#[test]
fn thousands_multiply_everything_before_them() {
    assert_eq!(number_of_word("eintausendeinhunderttausend"), 1_100_000);
    assert_eq!(number_of_word("dreiundzwanzigtausendvierhundertelf"), 23_411);
    unknown("zweitausendtausend");
}

#[test]
fn morphemes_out_of_place_make_an_unknown_word() {
    unknown("hundert");
    unknown("zig");
    unknown("undzwei");
    unknown("hundertzwei");
    unknown("zweizig");
    unknown("zweizehn");
    unknown("vierßig");
    unknown("einszwei");
    unknown("zweidrei");
    unknown("einhundertzehn");
    unknown("sechzigtausend");
    unknown("elftausend");
    unknown("dreiundvier");
    unknown("dreiunddreizig");
    unknown("vierundvierßig");
    unknown("hundertein");
    unknown("tausendeinzwei");
    unknown("zwanzigeins");
    unknown("zweihundertplus");
    unknown("");
    unknown("haus");
}

#[test]
fn numeral_that_ends_in_und_is_unknown() {
    unknown("fünfund");
    unknown("einhunderteinund");
}

#[test]
fn numeral_too_large_for_64_bits_is_unknown() {
    let mut word = "neuntausend".to_string();
    for _ in 0..5 {
        word.push_str("einhunderttausend");
    }
    assert_eq!(number_of_word(&word), 9_100_100_100_100_100_000);
    word.push_str("einhunderttausend");
    unknown(&word);
}

#[test]
fn digits_become_a_number_token() {
    let range = StartEnd::from(1, 4);
    assert_eq!(parse_number("0", range), Ok(ParseToken::Number((0, range))));
    assert_eq!(parse_number("007", range), Ok(ParseToken::Number((7, range))));
    assert_eq!(parse_number("123", range), Ok(ParseToken::Number((123, range))));
    assert_eq!(parse_number("+123", range), Ok(ParseToken::Number((123, range))));
    assert_eq!(
        parse_number("9223372036854775807", range),
        Ok(ParseToken::Number((i64::MAX, range)))
    );
}

#[test]
fn digits_from_two_to_the_63_are_refused() {
    let range = StartEnd::from(0, 19);
    let refused = Err("konnte Zahl nicht parsen".to_string());
    assert_eq!(parse_number("9223372036854775808", range), refused);
    assert_eq!(parse_number("+9223372036854775808", range), refused);
    assert_eq!(parse_number("18446744073709551615", range), refused);
    assert_eq!(parse_number("09223372036854775808", range), refused);
    assert_eq!(
        parse_number("09223372036854775807", range),
        Ok(ParseToken::Number((i64::MAX, range)))
    );
}

#[test]
fn a_number_too_large_is_a_diagnostic_over_its_digits() {
    assert_eq!(
        diagnostics_of("1 + 9223372036854775808"),
        vec![ErrorStruct::new(
            StartEnd::from(4, 23),
            "konnte Zahl nicht parsen".to_string()
        )]
    );
    assert_eq!(
        diagnostics_of("-9223372036854775808"),
        vec![ErrorStruct::new(
            StartEnd::from(1, 20),
            "konnte Zahl nicht parsen".to_string()
        )]
    );
}

#[test]
fn numbers_read_from_text_are_never_negative() {
    for text in [
        "0",
        "9223372036854775807",
        "-5",
        "minus fünf",
        "neunundneunzig * 000",
        "eintausendeinhunderttausend",
    ] {
        for token in tokens_of(text) {
            if let ParseToken::Number((n, _)) = token {
                assert!(n >= 0, "{}", text);
            }
        }
    }
}

#[test]
fn digits_that_are_no_number_are_refused() {
    let range = StartEnd::from(0, 1);
    let refused = Err("konnte Zahl nicht parsen".to_string());
    assert_eq!(parse_number("18446744073709551616", range), refused);
    assert_eq!(parse_number("99999999999999999999999", range), refused);
    assert_eq!(parse_number("", range), refused);
    assert_eq!(parse_number("+", range), refused);
    assert_eq!(parse_number("-1", range), refused);
    assert_eq!(parse_number("12a", range), refused);
    assert_eq!(parse_number("1 2", range), refused);
    assert_eq!(parse_number("99999999999999999999999x", range), refused);
}

#[test]
fn assembles_symbols_digits_and_words_with_their_ranges() {
    assert_eq!(
        tokens_of("12 + (drei*4)/zwei"),
        vec![
            ParseToken::Number((12, StartEnd::from(0, 2))),
            ParseToken::Op((Operator::Plus, StartEnd::from(3, 4))),
            ParseToken::Open(StartEnd::from(5, 6)),
            ParseToken::Number((3, StartEnd::from(6, 10))),
            ParseToken::Op((Operator::Multiply, StartEnd::from(10, 11))),
            ParseToken::Number((4, StartEnd::from(11, 12))),
            ParseToken::Close(StartEnd::from(12, 13)),
            ParseToken::Op((Operator::Divide, StartEnd::from(13, 14))),
            ParseToken::Number((2, StartEnd::from(14, 18))),
        ]
    );
}

#[test]
fn a_word_directly_behind_digits_is_its_own_token() {
    assert_eq!(
        tokens_of("1plus2"),
        vec![
            ParseToken::Number((1, StartEnd::from(0, 1))),
            ParseToken::Op((Operator::Plus, StartEnd::from(1, 5))),
            ParseToken::Number((2, StartEnd::from(5, 6))),
        ]
    );
}

#[test]
fn mixed_spellings_give_the_same_tokens_but_for_ranges() {
    let kinds = |text: &str| -> Vec<String> {
        tokens_of(text)
            .iter()
            .map(|t| match t {
                ParseToken::Number((n, _)) => format!("{}", n),
                ParseToken::Op((op, _)) => format!("{:?}", op),
                ParseToken::Open(_) => "(".to_string(),
                ParseToken::Close(_) => ")".to_string(),
            })
            .collect()
    };
    let expect = kinds("1 + (1 - 5)");
    assert_eq!(kinds("eins plus auf eins minus fünf zu"), expect);
    assert_eq!(kinds("eins + auf 1 - fünf)"), expect);
}

#[test]
fn empty_and_blank_input_give_no_tokens() {
    assert_eq!(tokens_of(""), vec![]);
    assert_eq!(tokens_of("    "), vec![]);
}

#[test]
fn every_lexical_problem_is_collected() {
    let errors = diagnostics_of("1 ? hallo 99999999999999999999 + X");
    assert_eq!(
        errors,
        vec![
            ErrorStruct::new(StartEnd::from(2, 3), "Unbekanntes Zeichen".to_string()),
            ErrorStruct::new(StartEnd::from(4, 9), "unbekanntes Wort".to_string()),
            ErrorStruct::new(StartEnd::from(10, 30), "konnte Zahl nicht parsen".to_string()),
            ErrorStruct::new(StartEnd::from(33, 34), "Unbekanntes Zeichen".to_string()),
        ]
    );
    assert_eq!(errors[1].range(), StartEnd::from(4, 9));
    assert_eq!(errors[1].msg(), "unbekanntes Wort");
}

#[test]
fn printed_signs_for_times_and_divide_are_no_input() {
    let errors = diagnostics_of("2\u{d7}3");
    assert_eq!(
        errors,
        vec![ErrorStruct::new(StartEnd::from(1, 2), "Unbekanntes Zeichen".to_string())]
    );
}

#[test]
fn parse_stream_push_last_clear() {
    let mut stream = ParseStream::new();
    assert_eq!(stream.len(), 0);
    assert_eq!(stream.last(), None);
    let one = ParseToken::Number((1, StartEnd::from(0, 1)));
    let plus = ParseToken::Op((Operator::Plus, StartEnd::from(1, 2)));
    stream.push(one);
    stream.push(plus);
    assert_eq!(stream.len(), 2);
    assert_eq!(stream.last(), Some(&plus));
    assert_eq!(stream.as_slice(), &[one, plus]);
    let seen: Vec<ParseToken> = stream.iter().copied().collect();
    assert_eq!(seen, vec![one, plus]);
    stream.clear();
    assert_eq!(stream.len(), 0);
    assert_eq!(stream.last(), None);
}

#[test]
fn triple_cursor_past_its_length_yields_nothing_for_any_slice() {
    let tokens = [WordToken::Ein];
    let mut done = wordcalc::iter::TripleIter {
        inner: &tokens[..],
        len: 0,
        count: 5,
    };
    assert_eq!(done.next(), None);
    assert_eq!(done.count, 5);
    let empty: [WordToken; 0] = [];
    let mut none = wordcalc::iter::TripleIter {
        inner: &empty[..],
        len: 0,
        count: 0,
    };
    assert_eq!(none.next(), None);
}

#[test]
fn triple_cursor_over_part_of_a_slice_looks_no_further() {
    let tokens = [WordToken::Ein, WordToken::Und, WordToken::Zwanzig];
    let mut iter = wordcalc::iter::TripleIter {
        inner: &tokens[..],
        len: 2,
        count: 0,
    };
    assert_eq!(
        iter.next(),
        Some((None, Some(&WordToken::Ein), Some(&WordToken::Und)))
    );
    assert_eq!(
        iter.next(),
        Some((Some(&WordToken::Ein), Some(&WordToken::Und), None))
    );
    assert_eq!(iter.next(), None);
}
