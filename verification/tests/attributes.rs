//! Attributes on tasks and on the entry point.
use rivet::macros::{
    check_entry, declare, entry, parse_settings, task, AttrError, ItemFacts, Lexeme, TaskDecl,
};

fn name(bytes: &[u8]) -> String {
    String::from_utf8(bytes.to_vec()).unwrap()
}

fn declare_text(attr: &str) -> Result<TaskDecl, AttrError> {
    task(attr, "async fn blinky() { loop {} }")
}

fn error(attr: &str) -> Option<AttrError> {
    declare_text(attr).err()
}

#[test]
fn task_is_declared() {
    let d = declare_text("priority = 1, stack = 256").ok().unwrap();
    assert_eq!(d.priority, 1);
    assert_eq!(d.stack_size, 256);
    assert_eq!(name(&d.poll_fn), "__rivet_poll_blinky");
    assert_eq!(name(&d.completed_fn), "__rivet_completed_blinky");
    assert_eq!(name(&d.cell), "__RIVET_CELL_blinky");
    assert_eq!(name(&d.reg), "__RIVET_REG_blinky");
}

#[test]
fn stack_has_a_default_and_order_does_not_matter() {
    assert_eq!(declare_text("priority = 31").ok().unwrap().stack_size, 512);
    let d = declare_text("stack = 0x1_00, priority = 0b11u8,").ok().unwrap();
    assert_eq!((d.priority, d.stack_size), (3, 256));
    let d = declare_text("priority = 1, priority = 2").ok().unwrap();
    assert_eq!(d.priority, 2);
}

#[test]
fn raw_names_lose_their_mark() {
    let d = task("priority = 1", "pub async fn r#loop() {}").ok().unwrap();
    assert_eq!(name(&d.poll_fn), "__rivet_poll_loop");
}

#[test]
fn refused_attributes() {
    assert_eq!(error(""), Some(AttrError::NoPriority));
    assert_eq!(error("stack = 64"), Some(AttrError::NoPriority));
    assert_eq!(error("priority = 256"), Some(AttrError::BadNumber));
    assert_eq!(error("priority = -1"), Some(AttrError::BadNumber));
    assert_eq!(error("priority"), Some(AttrError::Syntax));
    assert_eq!(error("priority = "), Some(AttrError::Syntax));
    assert_eq!(error("priority = \"1\""), Some(AttrError::Syntax));
    assert_eq!(error("priority = 1 stack = 2"), Some(AttrError::Syntax));
    assert_eq!(error("priority = 1,, stack = 2"), Some(AttrError::Syntax));
    assert_eq!(error("= 1"), Some(AttrError::Syntax));
    assert_eq!(error("colour = 1"), Some(AttrError::Unsupported));
    assert_eq!(error("colour"), Some(AttrError::Unsupported));
    assert_eq!(error("rivet::priority = 1"), Some(AttrError::Unsupported));
    assert_eq!(error("::priority = 1"), Some(AttrError::Unsupported));
    assert_eq!(error("rivet:: = 1"), Some(AttrError::Syntax));
    assert_eq!(error("priority = 300, colour = 1"), Some(AttrError::BadNumber));
}

#[test]
fn refused_functions() {
    assert_eq!(task("priority = 1", "fn f() {}").err(), Some(AttrError::NotAsync));
    assert_eq!(
        task("priority = 1", "async fn f(x: u8) {}").err(),
        Some(AttrError::HasParameters)
    );
    assert_eq!(task("nonsense", "struct S;").err(), Some(AttrError::NotAFunction));
    // What is wrong with the function comes before what is wrong with the
    // attribute.
    assert_eq!(task("nonsense", "fn f() {}").err(), Some(AttrError::NotAsync));
}

#[test]
fn entry_point() {
    assert_eq!(entry("", "fn main() -> ! { loop {} }"), Ok(()));
    assert_eq!(entry("x", "fn main() {}"), Err(AttrError::TakesNoArguments));
    assert_eq!(entry("", "fn main(x: u8) {}"), Err(AttrError::MainHasParameters));
    assert_eq!(entry("", "const X: u8 = 1;"), Err(AttrError::NotAFunction));
    assert_eq!(
        check_entry(2, Err(AttrError::NotAFunction)),
        Err(AttrError::TakesNoArguments)
    );
}

#[test]
fn messages() {
    assert_eq!(AttrError::NotAsync.message(), Some("#[rivet::task] requires an `async fn`"));
    assert_eq!(
        AttrError::Unsupported.message(),
        Some("unsupported #[rivet::task] attribute; expected `priority` or `stack`")
    );
    assert_eq!(AttrError::Syntax.message(), None);
}

#[test]
fn lexemes_are_enough_to_declare() {
    let attr = vec![
        Lexeme::Word(b"priority".to_vec()),
        Lexeme::Mark { ch: '=', joint: false },
        Lexeme::Int(b"007".to_vec()),
    ];
    let s = parse_settings(&attr).unwrap();
    assert_eq!((s.priority, s.stack, s.saw_priority), (7, 512, true));
    let f = ItemFacts { name: b"t".to_vec(), is_async: true, inputs: 0 };
    assert_eq!(declare(&f, &attr).ok().unwrap().priority, 7);
    let huge = vec![
        Lexeme::Word(b"stack".to_vec()),
        Lexeme::Mark { ch: '=', joint: false },
        Lexeme::Int(b"99999999999999999999999".to_vec()),
    ];
    assert_eq!(parse_settings(&huge), Err(AttrError::BadNumber));
}

/// A task whose body holds `unit` `n` times around `core`.
fn nested(before: &str, unit: &str, core: &str, after: &str, n: usize) -> String {
    format!("async fn f() {{ {before} {} {core} {} }}", unit.repeat(n), after.repeat(n))
}

#[test]
fn deep_nesting_is_refused_before_it_is_parsed() {
    let families = [
        ("", "(", "1", ")", 58, 64),
        ("", "{", "1", "}", 58, 64),
        ("let x: ", "&", "A", "", 58, 64),
        ("let x: ", "A<", "A", ">", 26, 40),
        ("", "!", "1", "", 230, 256),
        ("", "|a|", "1", "", 40, 60),
        ("", "|a, b| return ", "1", "", 20, 60),
        ("", "return ", "1", "", 110, 128),
        ("", "if ", "a", "{}", 110, 128),
        ("if a {}", " else if a {}", "", "", 35, 60),
        ("", ".. ", "1", "", 100, 128),
        ("x", "?", "", "", 3000, 4096),
        ("x", "()", "", "", 3000, 4096),
        ("x", "[0]", "", "", 3000, 4096),
        ("x", ".0.0", "", "", 1500, 2048),
        ("x", ".await", "", "", 100, 128),
        // What is behind a bracket is built around what is in it.
        ("", "(", "x", ")????????????????????????????????????????", 50, 64),
    ];
    for (before, unit, core, after, fits, too_many) in families {
        let text = nested(before, unit, core, after, fits);
        assert_ne!(task("priority = 1", &text).err(), Some(AttrError::TooDeep), "{unit}");
        let text = nested(before, unit, core, after, too_many);
        assert_eq!(task("priority = 1", &text).err(), Some(AttrError::TooDeep), "{unit}");
        let text = nested(before, unit, core, after, 100_000);
        assert_eq!(task("priority = 1", &text).err(), Some(AttrError::TooDeep), "{unit}");
        assert_eq!(entry("", &text), Err(AttrError::TooDeep), "{unit}");
    }
}

#[test]
fn long_functions_are_read() {
    let body = "let x = a.b(&c, [1, 2, 3]).d()?; if x == 1 && y { f(x); } ".repeat(40);
    let text = format!("/// Documented.\nasync fn long() {{ loop {{ {body} }} }}");
    assert_eq!(name(&task("priority = 1", &text).ok().unwrap().cell), "__RIVET_CELL_long");
}

#[test]
fn long_lists_are_read() {
    // Statements, arms and items of a list stand side by side: however many
    // there are, they are not nested.
    let bodies = [
        nested("match x {", "0 => {}", "_ => {} }", "", 500),
        nested("match x {", "A | B if c == d => return Err(e),", "_ => {} }", "", 500),
        nested("match x {", "S { a, b } => { f(a).await?; }", "_ => {} }", "", 500),
        nested("", "if a == b { c(); }", "", "", 500),
        nested("", "#[cfg(a)] loop { break; }", "", "", 500),
        nested("f([", "&A, -1, *b, Vec::<u8>::new(),", "0]);", "", 500),
        nested("g::<", "&A, ", "B>();", "", 500),
        nested("", "fn h(x: &[u8]) -> Option<u8> { None } ", "", "", 500),
    ];
    for text in bodies {
        assert_eq!(task("priority = 1", &text).err(), None, "{}", &text[..60]);
    }
}

#[test]
fn long_literals_are_read() {
    assert_eq!(error(&format!("priority = {}1", "0".repeat(1023))), None);
    assert_eq!(error(&format!("priority = {}1", "0".repeat(5000))), None);
    assert_eq!(error(&format!("priority = {}", "9".repeat(5000))), Some(AttrError::BadNumber));
    // A literal with brackets in it is not an integer.
    assert_eq!(error("priority = \"(1)\""), Some(AttrError::Syntax));
    assert_eq!(error("priority = '['"), Some(AttrError::Syntax));
    let text = format!("priority = \"{}\"", "(".repeat(100_000));
    assert_eq!(error(&text), Some(AttrError::Syntax));
}
