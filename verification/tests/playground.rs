use kugelblitz::playground::{
    deliver, eval_python, eval_rust, get_gist, get_hastebin, invalid_code_block, lang, parse_rust,
    playground, python_request, python_response, rust_request, shape_rust, Channel, CrateType,
    Delivery, Edition, EvalType, Mode,
};

#[test]
fn playground_reads_code_blocks() {
    assert_eq!(
        playground("```rust\nfn main() {}\n```"),
        Some(("\nfn main() {}\n".to_string(), EvalType::Rust))
    );
    assert_eq!(
        playground("  ```py\nprint(1)```  "),
        Some(("\nprint(1)".to_string(), EvalType::Python))
    );
    assert_eq!(
        playground("```python\nx```"),
        Some(("\nx".to_string(), EvalType::Python))
    );
    assert_eq!(playground("```rs```"), Some((String::new(), EvalType::Rust)));
    assert_eq!(playground("```c\nint x;```"), None);
    assert_eq!(playground("print(1)"), None);
    assert!(invalid_code_block().starts_with("Invalid codeblock"));
    assert!(lang().contains("Python: `python`, `py`"));
}

fn inline(d: Delivery) -> Option<String> {
    match d {
        Delivery::Inline(s) => Some(s),
        _ => None,
    }
}

#[test]
fn delivery_depends_on_size() {
    assert_eq!(inline(deliver("")), Some("``` ```".to_string()));
    assert_eq!(inline(deliver("a```b")), Some("```\na ` ` `b\n```".to_string()));
    assert!(matches!(deliver(&"x".repeat(1989)), Delivery::Inline(_)));
    assert!(matches!(deliver(&"x".repeat(1990)), Delivery::Paste));
    assert!(matches!(deliver(&"x".repeat(5000)), Delivery::Paste));
    assert!(matches!(deliver(&"x".repeat(5001)), Delivery::TooBig));
    // Sizes are counted in bytes.
    assert!(matches!(deliver(&"\u{e9}".repeat(1000)), Delivery::Paste));
    assert!(matches!(eval_python(&"\u{e9}".repeat(994)), Delivery::Inline(_)));
}

#[test]
fn eval_rust_wraps_expressions() {
    let r = eval_rust("1 + 1").unwrap();
    assert_eq!(
        r.code,
        "fn main() -> Result<(), Box<dyn std::any::Any>> {\n    println!(\"{:?}\", {\n        1 + 1\n    });\n    Ok(())\n}"
    );
    assert_eq!(r.channel, Channel::Stable);
    assert_eq!(r.mode, Mode::Debug);
    assert_eq!(r.edition, Edition::_2018);
    assert_eq!(r.crate_type, CrateType::Bin);
    assert!(!r.tests && !r.backtrace);
    let r = eval_rust("fn main ( ) { }").unwrap();
    assert_eq!(r.code, "fn main ( ) { }");
}

#[test]
fn parse_rust_shapes_output() {
    let (out, d) = parse_rust(true, "2", "   Compiling x\n    Finished").unwrap();
    assert_eq!(out, "2");
    assert_eq!(inline(d), Some("```\n2\n```".to_string()));
    let (out, _) = parse_rust(false, "", "head\nerror[E0308]: mismatched\nmore").unwrap();
    assert_eq!(out, "error[E0308]: mismatched\nmore\n\n");
    let (out, _) = parse_rust(true, "o", "thread panicked").unwrap();
    assert_eq!(out, "\n\no");
    let (out, _) = parse_rust(true, "o", "ok").unwrap();
    assert_eq!(out, "\n\no");
}

#[test]
fn rust_requests_and_answers_given_the_pattern_results() {
    assert_eq!(rust_request("fn main() {}", true).code, "fn main() {}");
    assert_eq!(
        rust_request("2", false).code,
        "fn main() -> Result<(), Box<dyn std::any::Any>> {\n    println!(\"{:?}\", {\n        2\n    });\n    Ok(())\n}"
    );
    let (out, d) = shape_rust(true, "2", "   Compiling x\n    Finished", false);
    assert_eq!(out, "2");
    assert_eq!(inline(d), Some("```\n2\n```".to_string()));
    let (out, _) = shape_rust(true, "2", "   Compiling x\n    Finished", true);
    assert_eq!(out, "    Finished\n\n2");
}

#[test]
fn links() {
    assert_eq!(get_hastebin("abc"), "https://hastebin.com/abc");
    let r = eval_rust("1").unwrap();
    assert_eq!(
        get_gist(&r, "xyz"),
        "https://play.rust-lang.org/?version=stable&mode=debug&edition=2018&gist=xyz"
    );
    assert_eq!(Channel::Nightly.name(), "nightly");
    assert_eq!(Mode::Release.name(), "release");
    assert_eq!(Edition::_2015.name(), "2015");
    assert_eq!(CrateType::Lib.name(), "lib");
}

#[test]
fn python_framing() {
    assert_eq!(python_request("print(1)"), "cHJpbnQoMSk=");
    assert_eq!(python_response("aGk="), Ok("hi".to_string()));
    assert_eq!(
        python_response("!!!"),
        Err("The server returned an invalid response, please try again later")
    );
    assert_eq!(
        python_response("/w=="),
        Err("The server returned an invalid response, please try again later")
    );
}
