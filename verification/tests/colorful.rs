//! The color-themed taxonomy: rendered messages and display codes.

use error_enum::emit::VariantDescriptor;
use error_enum::template::{render, NamedArg};
use error_enum::{compile_taxonomy, CompiledTaxonomy};

fn colored_error() -> CompiledTaxonomy {
    compile_taxonomy(
        r#"
        ColoredError {
            {
                #[kind = "error"]
                #[number = "0"]
                #[msg = "SimpleError"]
                {
                    #[number = "0"]
                    #[msg = "{0} is not black."]
                    BlackError (u8),
                    #[number = "1"]
                    #[msg = "{0} and {1} is not red."]
                    RedError (u8, u8),
                    #[number = "2"]
                    #[msg = "Code is green and yellow."]
                    GreenYellowError,
                    #[number = "3"]
                    #[msg = "I'm blue."]
                    BlueError,
                    #[number = "4"]
                    #[msg = "Purpule and cyan."]
                    PurpleCyanError,
                    #[number = "5"]
                    #[msg = "All in {white}."]
                    #[label = "check the color here"]
                    WhiteError {
                        white: String,
                        #[span]
                        span: SimpleSpan,
                    },
                },
            },
        }
        "#,
    )
    .unwrap()
}

fn variant<'a>(out: &'a CompiledTaxonomy, name: &str) -> &'a VariantDescriptor {
    out.variants.iter().find(|v| v.ident == name).unwrap()
}

fn pos(values: &[&str]) -> Vec<String> {
    values.iter().map(|s| s.to_string()).collect()
}

#[test]
fn main() {
    let out = colored_error();
    println!("{}", render(&variant(&out, "BlackError").message, &pos(&["1"]), &Vec::new()));
    println!("{}", render(&variant(&out, "RedError").message, &pos(&["3", "4"]), &Vec::new()));
    println!("{}", render(&variant(&out, "GreenYellowError").message, &Vec::new(), &Vec::new()));
    println!("{}", render(&variant(&out, "BlackError").message, &pos(&["9"]), &Vec::new()));
    println!("{}", render(&variant(&out, "BlueError").message, &Vec::new(), &Vec::new()));
    println!("{}", render(&variant(&out, "PurpleCyanError").message, &Vec::new(), &Vec::new()));
    println!(
        "{}",
        render(
            &variant(&out, "WhiteError").message,
            &Vec::new(),
            &vec![NamedArg { name: "white".to_string(), value: "white".to_string() }],
        )
    );
}

#[test]
fn colorful_basic() {
    let out = colored_error();
    let error = variant(&out, "RedError");
    assert_eq!(error.code, "E01");
    assert_eq!(
        render(&error.message, &pos(&["1", "2"]), &Vec::new()),
        "1 and 2 is not red."
    );
    let white = variant(&out, "WhiteError");
    assert_eq!(white.code, "E05");
    assert_eq!(white.label_text, "check the color here");
}
