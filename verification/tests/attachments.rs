use socketioxide::attachments::make_placeholder;
use socketioxide::attachments::Json;
use socketioxide::attachments::Slot;
use socketioxide::errors::Error;

fn text(s: &str) -> Json {
    Json::Text(s.as_bytes().to_vec())
}

fn number(s: &str) -> Json {
    Json::Number(s.as_bytes().to_vec())
}

fn object(members: Vec<(&str, Json)>) -> Json {
    let mut keys = Vec::new();
    let mut values = Vec::new();
    for (k, v) in members {
        keys.push(k.as_bytes().to_vec());
        values.push(v);
    }
    Json::Object(keys, values)
}

fn placeholder(n: &str) -> Json {
    object(vec![("_placeholder", Json::Bool(true)), ("num", number(n))])
}

/// Turns what `serde_json` parsed into the tree of the library.
fn from_value(v: serde_json::Value) -> Json {
    match v {
        serde_json::Value::Null => Json::Null,
        serde_json::Value::Bool(b) => Json::Bool(b),
        serde_json::Value::Number(n) => Json::Number(n.to_string().into_bytes()),
        serde_json::Value::String(s) => Json::Text(s.into_bytes()),
        serde_json::Value::Array(items) => Json::Array(items.into_iter().map(from_value).collect()),
        serde_json::Value::Object(members) => {
            let mut keys = Vec::new();
            let mut values = Vec::new();
            for (k, v) in members {
                keys.push(k.into_bytes());
                values.push(from_value(v));
            }
            Json::Object(keys, values)
        },
    }
}

#[test]
fn a_placeholder_is_recognised_by_its_exact_shape() {
    assert_eq!(make_placeholder(0), placeholder("0"));
    assert_eq!(make_placeholder(12), placeholder("12"));
    assert_eq!(placeholder("3").slot(4), Slot::Attachment(3));
    assert_eq!(placeholder("007").slot(8), Slot::Attachment(7));
    assert_eq!(placeholder("4").slot(4), Slot::Missing);
    assert_eq!(placeholder("0").slot(0), Slot::Missing);
    assert_eq!(placeholder("99999999999999999999999999").slot(usize::MAX), Slot::Missing);
    for other in [
        Json::Null,
        Json::Bool(true),
        number("1"),
        text("_placeholder"),
        Json::Binary(vec![1]),
        Json::Array(vec![]),
        object(vec![]),
        object(vec![("_placeholder", Json::Bool(true))]),
        object(vec![("num", number("0")), ("_placeholder", Json::Bool(true))]),
        object(vec![("_placeholder", Json::Bool(false)), ("num", number("0"))]),
        object(vec![("_placeholder", Json::Bool(true)), ("num", text("0"))]),
        object(vec![("_placeholder", Json::Bool(true)), ("num", number("-1"))]),
        object(vec![("_placeholder", Json::Bool(true)), ("num", number("1.5"))]),
        object(vec![("_placeholder", Json::Bool(true)), ("num", number(""))]),
        object(vec![("_placeholder", Json::Bool(true)), ("nums", number("0"))]),
        object(vec![("_placeholder", Json::Bool(true)), ("num", number("0")), ("x", Json::Null)]),
        Json::Object(vec![b"_placeholder".to_vec(), b"num".to_vec()], vec![Json::Bool(true)]),
    ] {
        assert_eq!(other.slot(10), Slot::Value);
    }
}

#[test]
fn attachments_are_put_where_their_placeholders_stand() {
    let args = Json::Array(vec![text("img"), placeholder("0")]);
    let bin = vec![vec![0xDE, 0xAD, 0xBE, 0xEF]];
    assert_eq!(
        args.substitute(&bin),
        Ok(Json::Array(vec![text("img"), Json::Binary(vec![0xDE, 0xAD, 0xBE, 0xEF])]))
    );
    // any order, any depth, and an attachment may be used twice
    let args = Json::Array(vec![
        placeholder("1"),
        object(vec![("deep", Json::Array(vec![placeholder("0"), Json::Null])), ("n", number("1"))]),
        placeholder("1"),
    ]);
    let bin = vec![vec![0], vec![1, 1]];
    assert_eq!(
        args.substitute(&bin),
        Ok(Json::Array(vec![
            Json::Binary(vec![1, 1]),
            object(vec![("deep", Json::Array(vec![Json::Binary(vec![0]), Json::Null])), ("n", number("1"))]),
            Json::Binary(vec![1, 1]),
        ]))
    );
    assert_eq!(placeholder("0").substitute(&bin), Ok(Json::Binary(vec![0])));
    assert_eq!(text("plain").substitute(&bin), Ok(text("plain")));
    assert_eq!(Json::Binary(vec![5]).substitute(&bin), Ok(Json::Binary(vec![5])));
}

#[test]
fn a_placeholder_without_its_attachment_is_an_error() {
    let bin = vec![vec![0], vec![1]];
    assert_eq!(placeholder("2").substitute(&bin), Err(Error::InvalidPlaceholder));
    let args = Json::Array(vec![placeholder("0"), object(vec![("x", placeholder("5"))])]);
    assert_eq!(args.substitute(&bin), Err(Error::InvalidPlaceholder));
    assert_eq!(args.substitute(&vec![]), Err(Error::InvalidPlaceholder));
    assert_eq!(Error::InvalidPlaceholder.disconnect_reason(), Error::InvalidJson.disconnect_reason());
}

#[test]
fn leaves_are_taken_out_in_the_order_in_which_they_are_met() {
    let value = Json::Array(vec![
        text("upload"),
        Json::Binary(vec![1]),
        object(vec![
            ("a", Json::Array(vec![Json::Binary(vec![2]), number("7"), Json::Binary(vec![])])),
            ("b", Json::Binary(vec![4, 4])),
        ]),
        Json::Bool(false),
        Json::Binary(vec![5]),
    ]);
    let mut bin = Vec::new();
    let wire = value.extract(&mut bin);
    assert_eq!(
        wire,
        Json::Array(vec![
            text("upload"),
            placeholder("0"),
            object(vec![
                ("a", Json::Array(vec![placeholder("1"), number("7"), placeholder("2")])),
                ("b", placeholder("3")),
            ]),
            Json::Bool(false),
            placeholder("4"),
        ])
    );
    assert_eq!(bin, vec![vec![1], vec![2], vec![], vec![4, 4], vec![5]]);
    assert_eq!(wire.substitute(&bin), Ok(value));
}

#[test]
fn numbering_goes_on_from_the_attachments_that_are_there() {
    let mut bin = vec![vec![9], vec![9]];
    let wire = Json::Array(vec![Json::Binary(vec![1]), Json::Binary(vec![2])]).extract(&mut bin);
    assert_eq!(wire, Json::Array(vec![placeholder("2"), placeholder("3")]));
    assert_eq!(bin, vec![vec![9], vec![9], vec![1], vec![2]]);
    let mut bin = Vec::new();
    assert_eq!(Json::Null.extract(&mut bin), Json::Null);
    assert_eq!(Json::Binary(vec![7]).extract(&mut bin), placeholder("0"));
    assert_eq!(bin, vec![vec![7]]);
}

#[test]
fn the_arguments_of_a_binary_event_as_the_json_parser_hands_them_over() {
    let data = b"[\"img\",{\"_placeholder\":true,\"num\":0},{\"nested\":[{\"num\":1,\"_placeholder\":true}]}]";
    let args = from_value(serde_json::from_slice(data).unwrap());
    let bin = vec![vec![0xDE, 0xAD, 0xBE, 0xEF], vec![1]];
    assert_eq!(
        args.substitute(&bin),
        Ok(Json::Array(vec![
            text("img"),
            Json::Binary(vec![0xDE, 0xAD, 0xBE, 0xEF]),
            object(vec![("nested", Json::Array(vec![Json::Binary(vec![1])]))]),
        ]))
    );
}
