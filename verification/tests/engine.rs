use speedymd::config::{FieldKind, FrontmatterField};
use speedymd::extract::extract;
use speedymd::header::serialize;
use speedymd::prompt::{Answer, ScriptedPrompter};
use speedymd::value::FieldPayload;

fn leaf(name: &str, kind: FieldKind, required: bool) -> FrontmatterField {
    FrontmatterField {
        name: name.to_string(),
        kind,
        question: String::new(),
        placeholder: String::new(),
        required,
        options: Vec::new(),
        properties: Vec::new(),
    }
}

fn choice(name: &str, kind: FieldKind, options: &[&str]) -> FrontmatterField {
    FrontmatterField {
        name: name.to_string(),
        kind,
        question: String::new(),
        placeholder: String::new(),
        required: false,
        options: options.iter().map(|o| o.to_string()).collect(),
        properties: Vec::new(),
    }
}

fn group(name: &str, children: Vec<FrontmatterField>) -> FrontmatterField {
    FrontmatterField {
        name: name.to_string(),
        kind: FieldKind::Group,
        question: String::new(),
        placeholder: String::new(),
        required: false,
        options: Vec::new(),
        properties: children,
    }
}

fn text_answer(s: &str) -> Answer {
    Answer::Text(s.to_string())
}

#[test]
fn serialize_empty_is_empty_string() {
    let out = serialize(&Vec::new());
    assert_eq!(out, "");
}

#[test]
fn required_text_example_header() {
    let fields = vec![leaf("title", FieldKind::Text, true)];
    let mut p = ScriptedPrompter::new(vec![text_answer("Hello")]);
    let values = extract(&fields, &mut p).unwrap();
    assert_eq!(values.len(), 1);
    assert_eq!(values[0].key, "title");
    let out = serialize(&values);
    assert_eq!(out, "---\ntitle: Hello\n---\n\n");
}

#[test]
fn header_begins_and_ends_with_delimiters() {
    let fields = vec![
        leaf("a", FieldKind::Text, false),
        leaf("b", FieldKind::Boolean, false),
    ];
    let mut p = ScriptedPrompter::new(vec![text_answer("x"), Answer::Flag(false)]);
    let values = extract(&fields, &mut p).unwrap();
    let out = serialize(&values);
    assert_eq!(out, "---\na: x\nb: false\n---\n\n");
    assert!(out.starts_with("---\n"));
    assert!(out.ends_with("---\n\n"));
}

#[test]
fn number_invalid_input_is_reprompted() {
    let fields = vec![leaf("count", FieldKind::Number, false)];
    let mut p = ScriptedPrompter::new(vec![text_answer("abc"), text_answer("42")]);
    let values = extract(&fields, &mut p).unwrap();
    match &values[0].payload {
        FieldPayload::Number(n) => assert_eq!(*n, 42),
        _ => panic!("expected a number payload"),
    }
    assert_eq!(serialize(&values), "---\ncount: 42\n---\n\n");
}

#[test]
fn number_empty_not_required_is_zero() {
    let fields = vec![leaf("count", FieldKind::Number, false)];
    let mut p = ScriptedPrompter::new(vec![text_answer("")]);
    let values = extract(&fields, &mut p).unwrap();
    match &values[0].payload {
        FieldPayload::Number(n) => assert_eq!(*n, 0),
        _ => panic!("expected a number payload"),
    }
}

#[test]
fn number_empty_required_is_reprompted() {
    let fields = vec![leaf("count", FieldKind::Number, true)];
    let mut p = ScriptedPrompter::new(vec![text_answer(""), text_answer("-7")]);
    let values = extract(&fields, &mut p).unwrap();
    assert_eq!(serialize(&values), "---\ncount: -7\n---\n\n");
}

#[test]
fn number_extremes_serialize_exactly() {
    let fields = vec![
        leaf("lo", FieldKind::Number, false),
        leaf("hi", FieldKind::Number, false),
    ];
    let mut p = ScriptedPrompter::new(vec![
        text_answer("-9223372036854775808"),
        text_answer("9223372036854775807"),
    ]);
    let values = extract(&fields, &mut p).unwrap();
    assert_eq!(
        serialize(&values),
        "---\nlo: -9223372036854775808\nhi: 9223372036854775807\n---\n\n"
    );
}

#[test]
fn number_overflow_is_reprompted() {
    let fields = vec![leaf("n", FieldKind::Number, false)];
    let mut p = ScriptedPrompter::new(vec![text_answer("9223372036854775808"), text_answer("1")]);
    let values = extract(&fields, &mut p).unwrap();
    assert_eq!(serialize(&values), "---\nn: 1\n---\n\n");
}

#[test]
fn required_text_empty_is_reprompted() {
    let fields = vec![leaf("title", FieldKind::Text, true)];
    let mut p = ScriptedPrompter::new(vec![text_answer(""), text_answer("hi")]);
    let values = extract(&fields, &mut p).unwrap();
    assert_eq!(serialize(&values), "---\ntitle: hi\n---\n\n");
}

#[test]
fn optional_text_empty_is_kept() {
    let fields = vec![leaf("subtitle", FieldKind::Text, false)];
    let mut p = ScriptedPrompter::new(vec![text_answer("")]);
    let values = extract(&fields, &mut p).unwrap();
    assert_eq!(serialize(&values), "---\nsubtitle: \"\"\n---\n\n");
}

#[test]
fn multi_choice_keeps_declaration_order() {
    let fields = vec![choice("tags", FieldKind::MultiChoice, &["A", "B", "C"])];
    // the operator picks C first, then A
    let mut p = ScriptedPrompter::new(vec![Answer::Indices(vec![2, 0])]);
    let values = extract(&fields, &mut p).unwrap();
    match &values[0].payload {
        FieldPayload::MultiChoice(picked) => assert_eq!(picked, &vec!["A", "C"]),
        _ => panic!("expected a multi-choice payload"),
    }
    assert_eq!(serialize(&values), "---\ntags:\n  - A\n  - C\n---\n\n");
}

#[test]
fn multi_choice_empty_selection() {
    let fields = vec![choice("tags", FieldKind::MultiChoice, &["A", "B"])];
    let mut p = ScriptedPrompter::new(vec![Answer::Indices(vec![])]);
    let values = extract(&fields, &mut p).unwrap();
    assert_eq!(serialize(&values), "---\ntags:\n---\n\n");
}

#[test]
fn single_choice_payload_is_option_text() {
    let fields = vec![choice("lang", FieldKind::SingleChoice, &["en", "de", "fr"])];
    let mut p = ScriptedPrompter::new(vec![Answer::Index(1)]);
    let values = extract(&fields, &mut p).unwrap();
    match &values[0].payload {
        FieldPayload::SingleChoice(s) => assert_eq!(s, "de"),
        _ => panic!("expected a single-choice payload"),
    }
    assert_eq!(serialize(&values), "---\nlang: de\n---\n\n");
}

#[test]
fn single_choice_out_of_range_aborts() {
    let fields = vec![choice("lang", FieldKind::SingleChoice, &["en"])];
    let mut p = ScriptedPrompter::new(vec![Answer::Index(5)]);
    assert!(extract(&fields, &mut p).is_err());
}

#[test]
fn group_yields_qualified_keys() {
    let fields = vec![group(
        "g",
        vec![leaf("x", FieldKind::Text, false), leaf("y", FieldKind::Boolean, false)],
    )];
    let mut p = ScriptedPrompter::new(vec![text_answer("vx"), Answer::Flag(true)]);
    let values = extract(&fields, &mut p).unwrap();
    assert_eq!(values.len(), 2);
    assert_eq!(values[0].key, "g.x");
    assert_eq!(values[1].key, "g.y");
    assert_eq!(serialize(&values), "---\ng.x: vx\ng.y: true\n---\n\n");
}

#[test]
fn cancellation_yields_no_values() {
    let fields = vec![
        leaf("a", FieldKind::Text, false),
        leaf("b", FieldKind::Text, false),
    ];
    // the script runs out after the first answer: the whole run aborts
    let mut p = ScriptedPrompter::new(vec![text_answer("first")]);
    assert!(extract(&fields, &mut p).is_err());
}

#[test]
fn cancellation_at_first_prompt() {
    let fields = vec![leaf("a", FieldKind::Text, false)];
    let mut p = ScriptedPrompter::new(Vec::new());
    assert!(extract(&fields, &mut p).is_err());
}

#[test]
fn mismatched_answer_shape_aborts() {
    let fields = vec![leaf("a", FieldKind::Text, false)];
    let mut p = ScriptedPrompter::new(vec![Answer::Flag(true)]);
    assert!(extract(&fields, &mut p).is_err());
}

#[test]
fn identical_runs_give_identical_headers() {
    let make_fields = || {
        vec![
            leaf("title", FieldKind::Text, true),
            choice("tags", FieldKind::MultiChoice, &["A", "B", "C"]),
            group("meta", vec![leaf("n", FieldKind::Number, false)]),
        ]
    };
    let script = || {
        vec![
            text_answer("Hello"),
            Answer::Indices(vec![1, 2]),
            text_answer("5"),
        ]
    };
    let mut p1 = ScriptedPrompter::new(script());
    let out1 = serialize(&extract(&make_fields(), &mut p1).unwrap());
    let mut p2 = ScriptedPrompter::new(script());
    let out2 = serialize(&extract(&make_fields(), &mut p2).unwrap());
    assert_eq!(out1, out2);
}

#[test]
fn breaking_characters_are_quoted_and_escaped() {
    let fields = vec![
        leaf("a", FieldKind::Text, false),
        leaf("b", FieldKind::Text, false),
        leaf("c", FieldKind::Text, false),
    ];
    let mut p = ScriptedPrompter::new(vec![
        text_answer("x: y"),
        text_answer("say \"hi\"\nbye\\now"),
        text_answer("-dash"),
    ]);
    let values = extract(&fields, &mut p).unwrap();
    assert_eq!(
        serialize(&values),
        "---\na: \"x: y\"\nb: \"say \\\"hi\\\"\\nbye\\\\now\"\nc: \"-dash\"\n---\n\n"
    );
}

#[test]
fn plain_text_is_not_quoted() {
    let fields = vec![leaf("a", FieldKind::Text, false)];
    let mut p = ScriptedPrompter::new(vec![text_answer("plain text, no. 7 (fine)")]);
    let values = extract(&fields, &mut p).unwrap();
    assert_eq!(serialize(&values), "---\na: plain text, no. 7 (fine)\n---\n\n");
}

#[test]
fn boolean_answers() {
    let fields = vec![
        leaf("yes", FieldKind::Boolean, false),
        leaf("no", FieldKind::Boolean, false),
    ];
    let mut p = ScriptedPrompter::new(vec![Answer::Flag(true), Answer::Flag(false)]);
    let values = extract(&fields, &mut p).unwrap();
    assert_eq!(serialize(&values), "---\nyes: true\nno: false\n---\n\n");
}
