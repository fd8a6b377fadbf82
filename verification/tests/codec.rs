use xkcd_term::comic::Comic;
use xkcd_term::json::{comic_to_json, parse_comic, ParseOutcome};

fn sample_comic() -> Comic {
    Comic {
        month: String::from("4"),
        num: 353,
        link: String::new(),
        year: String::from("2008"),
        news: String::new(),
        safe_title: String::from("Python"),
        transcript: String::from("[[ Guy 1 is talking to Guy 2, who is floating in the sky ]]"),
        alt: String::from("I wrote 20 short programs in Python yesterday."),
        img: String::from("https://imgs.xkcd.com/comics/python.png"),
        title: String::from("Python"),
        day: String::from("6"),
    }
}

#[test]
fn round_trip_known_comic() {
    let c = sample_comic();
    let wire = comic_to_json(&c);
    match parse_comic(&wire) {
        ParseOutcome::Found(back) => assert_eq!(back, c),
        ParseOutcome::NoMatch => panic!("a written record must read back"),
    }
}

#[test]
fn round_trip_awkward_text() {
    let mut c = sample_comic();
    c.title = String::from("a \"quoted\" name");
    c.alt = String::from("line one\nline two\ttabbed \\ backslash");
    c.transcript = String::from("control \u{0001} char and caf\u{00e9} ñ 漫画");
    c.news = String::from("/slashes/ are fine");
    c.num = i64::MIN;
    let wire = comic_to_json(&c);
    match parse_comic(&wire) {
        ParseOutcome::Found(back) => assert_eq!(back, c),
        ParseOutcome::NoMatch => panic!("a written record must read back"),
    }
}

#[test]
fn serialized_shape_is_exact() {
    let mut c = sample_comic();
    c.transcript = String::new();
    c.alt = String::new();
    let wire = comic_to_json(&c);
    assert_eq!(
        wire,
        "{\"month\":\"4\",\"num\":353,\"link\":\"\",\"year\":\"2008\",\"news\":\"\",\
         \"safe_title\":\"Python\",\"transcript\":\"\",\"alt\":\"\",\
         \"img\":\"https://imgs.xkcd.com/comics/python.png\",\"title\":\"Python\",\"day\":\"6\"}"
    );
}

#[test]
fn parses_body_as_served() {
    let body = "{\"month\": \"4\", \"num\": 353, \"link\": \"\", \"year\": \"2008\", \
                \"news\": \"\", \"safe_title\": \"Python\", \"transcript\": \"flying\", \
                \"alt\": \"alt text\", \"img\": \"https://imgs.xkcd.com/comics/python.png\", \
                \"title\": \"Python\", \"day\": \"6\"}";
    match parse_comic(body) {
        ParseOutcome::Found(c) => {
            assert_eq!(c.month, "4");
            assert_eq!(c.num, 353);
            assert_eq!(c.year, "2008");
            assert_eq!(c.safe_title, "Python");
            assert_eq!(c.transcript, "flying");
            assert_eq!(c.alt, "alt text");
            assert_eq!(c.img, "https://imgs.xkcd.com/comics/python.png");
            assert_eq!(c.title, "Python");
            assert_eq!(c.day, "6");
            assert_eq!(c.link, "");
            assert_eq!(c.news, "");
        },
        ParseOutcome::NoMatch => panic!("a well-formed body must parse"),
    }
}

#[test]
fn parses_fields_in_any_order_and_ignores_unknown() {
    let body = "{\"day\":\"6\",\"title\":\"Python\",\"img\":\"https://x/y.png\",\"alt\":\"a\",\
                \"transcript\":\"t\",\"safe_title\":\"Python\",\"news\":\"\",\"year\":\"2008\",\
                \"link\":\"\",\"num\":353,\"month\":\"4\",\"extra\":\"ignored\"}";
    match parse_comic(body) {
        ParseOutcome::Found(c) => {
            assert_eq!(c.num, 353);
            assert_eq!(c.img, "https://x/y.png");
        },
        ParseOutcome::NoMatch => panic!("field order must not matter"),
    }
}

#[test]
fn parses_unicode_escapes() {
    let body = "{\"month\":\"4\",\"num\":1,\"link\":\"\",\"year\":\"2008\",\"news\":\"\",\
                \"safe_title\":\"\\u0041\\u00e9\",\"transcript\":\"\\n\\t\\\\\",\"alt\":\"\\\"\",\
                \"img\":\"a/b.png\",\"title\":\"\\u0001\",\"day\":\"6\"}";
    match parse_comic(body) {
        ParseOutcome::Found(c) => {
            assert_eq!(c.safe_title, "A\u{00e9}");
            assert_eq!(c.transcript, "\n\t\\");
            assert_eq!(c.alt, "\"");
            assert_eq!(c.title, "\u{0001}");
        },
        ParseOutcome::NoMatch => panic!("escapes must parse"),
    }
}

#[test]
fn rejects_error_body() {
    assert!(matches!(
        parse_comic("{\"error\":\"not found\"}"),
        ParseOutcome::NoMatch
    ));
}

#[test]
fn rejects_missing_field() {
    // no "day" member
    let body = "{\"month\":\"4\",\"num\":353,\"link\":\"\",\"year\":\"2008\",\"news\":\"\",\
                \"safe_title\":\"p\",\"transcript\":\"\",\"alt\":\"\",\"img\":\"a/b.png\",\
                \"title\":\"p\"}";
    assert!(matches!(parse_comic(body), ParseOutcome::NoMatch));
}

#[test]
fn rejects_duplicate_field() {
    let body = "{\"month\":\"4\",\"month\":\"5\",\"num\":353,\"link\":\"\",\"year\":\"2008\",\
                \"news\":\"\",\"safe_title\":\"p\",\"transcript\":\"\",\"alt\":\"\",\
                \"img\":\"a/b.png\",\"title\":\"p\",\"day\":\"6\"}";
    assert!(matches!(parse_comic(body), ParseOutcome::NoMatch));
}

#[test]
fn rejects_wrong_kind_and_overflow() {
    let text_num = "{\"month\":\"4\",\"num\":\"353\",\"link\":\"\",\"year\":\"2008\",\"news\":\"\",\
                \"safe_title\":\"p\",\"transcript\":\"\",\"alt\":\"\",\"img\":\"a/b.png\",\
                \"title\":\"p\",\"day\":\"6\"}";
    assert!(matches!(parse_comic(text_num), ParseOutcome::NoMatch));
    let too_big = "{\"month\":\"4\",\"num\":9223372036854775808,\"link\":\"\",\"year\":\"2008\",\
                \"news\":\"\",\"safe_title\":\"p\",\"transcript\":\"\",\"alt\":\"\",\
                \"img\":\"a/b.png\",\"title\":\"p\",\"day\":\"6\"}";
    assert!(matches!(parse_comic(too_big), ParseOutcome::NoMatch));
    let max_fits = "{\"month\":\"4\",\"num\":9223372036854775807,\"link\":\"\",\"year\":\"2008\",\
                \"news\":\"\",\"safe_title\":\"p\",\"transcript\":\"\",\"alt\":\"\",\
                \"img\":\"a/b.png\",\"title\":\"p\",\"day\":\"6\"}";
    match parse_comic(max_fits) {
        ParseOutcome::Found(c) => assert_eq!(c.num, i64::MAX),
        ParseOutcome::NoMatch => panic!("the largest identifier must fit"),
    }
}

#[test]
fn rejects_trailing_garbage() {
    let c = sample_comic();
    let mut wire = comic_to_json(&c);
    assert!(matches!(parse_comic(&wire), ParseOutcome::Found(_)));
    wire.push('x');
    assert!(matches!(parse_comic(&wire), ParseOutcome::NoMatch));
}

#[test]
fn serialized_record_satisfies_general_json_readers() {
    let mut c = sample_comic();
    c.title = String::from("quoted \" and \\ and \n end \u{0002}");
    c.num = -42;
    let wire = comic_to_json(&c);
    let v: serde_json::Value = serde_json::from_str(&wire).expect("the wire text is valid JSON");
    assert_eq!(v.get("month").and_then(|x| x.as_str()), Some("4"));
    assert_eq!(v.get("num").and_then(|x| x.as_i64()), Some(-42));
    assert_eq!(
        v.get("title").and_then(|x| x.as_str()),
        Some("quoted \" and \\ and \n end \u{0002}")
    );
    assert_eq!(
        v.get("img").and_then(|x| x.as_str()),
        Some("https://imgs.xkcd.com/comics/python.png")
    );
}

#[test]
fn reads_what_general_json_writers_produce() {
    let mut m = serde_json::Map::new();
    m.insert("month".into(), serde_json::Value::from("4"));
    m.insert("num".into(), serde_json::Value::from(353));
    m.insert("link".into(), serde_json::Value::from(""));
    m.insert("year".into(), serde_json::Value::from("2008"));
    m.insert("news".into(), serde_json::Value::from(""));
    m.insert("safe_title".into(), serde_json::Value::from("Python"));
    m.insert("transcript".into(), serde_json::Value::from("over \u{2603} snow"));
    m.insert("alt".into(), serde_json::Value::from("alt \"text\""));
    m.insert("img".into(), serde_json::Value::from("https://imgs.xkcd.com/comics/python.png"));
    m.insert("title".into(), serde_json::Value::from("Python"));
    m.insert("day".into(), serde_json::Value::from("6"));
    let body = serde_json::Value::Object(m).to_string();
    match parse_comic(&body) {
        ParseOutcome::Found(c) => {
            assert_eq!(c.num, 353);
            assert_eq!(c.transcript, "over \u{2603} snow");
            assert_eq!(c.alt, "alt \"text\"");
        },
        ParseOutcome::NoMatch => panic!("a body written by another JSON writer must parse"),
    }
}

#[test]
fn tolerates_whitespace_everywhere() {
    let body = " \t\r\n { \"month\" : \"4\" ,\n \"num\" :\t353 , \"link\" : \"\" , \
                \"year\" : \"2008\" , \"news\" : \"\" , \"safe_title\" : \"p\" , \
                \"transcript\" : \"\" , \"alt\" : \"\" , \"img\" : \"a/b.png\" , \
                \"title\" : \"p\" , \"day\" : \"6\" } \n ";
    match parse_comic(body) {
        ParseOutcome::Found(c) => assert_eq!(c.num, 353),
        ParseOutcome::NoMatch => panic!("whitespace between tokens must not matter"),
    }
}

#[test]
fn rejects_empty_and_garbage_bodies() {
    assert!(matches!(parse_comic(""), ParseOutcome::NoMatch));
    assert!(matches!(parse_comic("   \n  "), ParseOutcome::NoMatch));
    assert!(matches!(parse_comic("{}"), ParseOutcome::NoMatch));
    assert!(matches!(parse_comic("not json at all"), ParseOutcome::NoMatch));
    assert!(matches!(parse_comic("<html>503</html>"), ParseOutcome::NoMatch));
}
