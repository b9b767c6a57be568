use expr_eval::shell::{parse_command, strip_debug, Command};

/// The command of a line, read with the string functions of the standard
/// library.
fn reference(input: &str) -> Command {
    let lower = input.to_lowercase();
    if lower.starts_with("[exit]") {
        Command::Exit
    } else if lower.starts_with("[variables]") {
        Command::Variables
    } else if lower.starts_with("[clear]") {
        Command::Clear
    } else if lower.starts_with("[defs]") {
        Command::Defs
    } else if lower.starts_with("[def ") {
        match input.find("]") {
            Some(n) => Command::Define {
                names: input[5..n].trim_start().split_whitespace().map(str::to_string).collect(),
                expr: input[n + 1..].trim_start().to_string(),
            },
            None => Command::Evaluate,
        }
    } else if lower.starts_with("[del]") {
        let v = input.split("]").collect::<Vec<&str>>();
        let mut name = None;
        if v.len() >= 2 {
            if let Some(rest) = v[1].strip_suffix("\r\n") {
                if let Some(n) = rest.strip_prefix(' ') {
                    name = Some(n.to_string());
                }
            }
        }
        Command::Delete { name }
    } else {
        Command::Evaluate
    }
}

fn reference_debug(input: &str) -> (bool, String) {
    if input.to_lowercase().starts_with("[debug]") {
        (true, input[7..].trim_start().to_string())
    } else {
        (false, input.to_string())
    }
}

fn lines() -> Vec<&'static str> {
    vec![
        "",
        "1 + 2",
        "[exit]",
        "[EXIT]\n",
        "[Exit] now",
        "[exit",
        "[exi]",
        " [exit]",
        "[variables]",
        "[VARIABLES]\r\n",
        "[variable]",
        "[clear]",
        "[Clear]  ",
        "[defs]",
        "[DEFS]\n",
        "[def a] 1 + 2",
        "[def a b  c]   x * 2\n",
        "[DEF   area\tvolume ]\t r * r",
        "[def ] 5",
        "[def a",
        "[def a]",
        "[def a]]",
        "[def a\u{a0}b\u{2003}c] \u{3000}1",
        "[def é ü] 1",
        "[defx]",
        "[def",
        "[del] x\r\n",
        "[DEL] long_name\r\n",
        "[del] x\n",
        "[del]x\r\n",
        "[del] \r\n",
        "[del]  x\r\n",
        "[del] x\r\n] more",
        "[del] a]b\r\n",
        "[del]",
        "[del] x",
        "[del",
        "[debug]",
        "[debug] 1 + 2",
        "[k] \u{212a}",
        "[ex\u{130}t]",
        "[\u{212a}]",
    ]
}

#[test]
fn commands_are_read_as_the_standard_library_reads_them() {
    for line in lines() {
        assert_eq!(parse_command(line), reference(line), "for {:?}", line);
    }
}

#[test]
fn the_debug_prefix_is_taken_as_the_standard_library_takes_it() {
    for line in lines() {
        assert_eq!(strip_debug(line), reference_debug(line), "for {:?}", line);
    }
    for line in ["[debug]1", "[DEBUG]   a = 1\n", "[Debug]\t\u{a0}x", "[debug", " [debug] 1"] {
        assert_eq!(strip_debug(line), reference_debug(line), "for {:?}", line);
    }
}

#[test]
fn commands() {
    assert_eq!(parse_command("[exit]"), Command::Exit);
    assert_eq!(parse_command("[variables]"), Command::Variables);
    assert_eq!(parse_command("[clear]"), Command::Clear);
    assert_eq!(parse_command("[defs]"), Command::Defs);
    assert_eq!(
        parse_command("[def area  volume]  r * r"),
        Command::Define {
            names: vec!["area".to_string(), "volume".to_string()],
            expr: "r * r".to_string()
        }
    );
    assert_eq!(parse_command("[def a"), Command::Evaluate);
    assert_eq!(parse_command("[del] x\r\n"), Command::Delete { name: Some("x".to_string()) });
    assert_eq!(parse_command("[del] x\n"), Command::Delete { name: None });
    assert_eq!(parse_command("a = 1"), Command::Evaluate);
    assert_eq!(strip_debug("[debug]  a = 1"), (true, "a = 1".to_string()));
    assert_eq!(strip_debug("a = 1"), (false, "a = 1".to_string()));
}
