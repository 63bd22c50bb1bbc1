use whkd::parser::{parser, ParseErrorKind};
use whkd::whkdrc::{HotkeyBinding, Shell, Whkdrc};

#[test]
fn test_single_line_parse() {
    let src = r#"
.shell pwsh # can be one of cmd | pwsh | powershell

alt + h : echo "Hello""#;

    let output = parser(src);
    let expected = Whkdrc {
        shell: Shell::Pwsh,
        app_bindings: vec![],
        bindings: vec![HotkeyBinding {
            mode: None,
            keys: vec![String::from("alt"), String::from("h")],
            command: Some(String::from("echo \"Hello\"")),
            internal_action: None,
            process_name: None,
        }],
    };

    assert_eq!(output.unwrap(), expected);
}

#[test]
fn test_multi_mode() {
    let src = r#"
.shell pwsh # can be one of cmd | pwsh | powershell

alt + h ; window
window > esc ; default

window > m : echo "Hello"
window > c : echo "Test" ; default"#;

    let output = parser(src);
    let expected = Whkdrc {
        shell: Shell::Pwsh,
        app_bindings: vec![],
        bindings: vec![
            HotkeyBinding {
                mode: None,
                keys: vec![String::from("alt"), String::from("h")],
                command: None,
                internal_action: Some(Some(String::from("window"))),
                process_name: None,
            },
            HotkeyBinding {
                mode: Some(String::from("window")),
                keys: vec![String::from("esc")],
                command: None,
                internal_action: Some(None),
                process_name: None,
            },
            HotkeyBinding {
                mode: Some(String::from("window")),
                keys: vec![String::from("m")],
                command: Some(String::from("echo \"Hello\"")),
                internal_action: None,
                process_name: None,
            },
            HotkeyBinding {
                mode: Some(String::from("window")),
                keys: vec![String::from("c")],
                command: Some(String::from("echo \"Test\"")),
                internal_action: Some(None),
                process_name: None,
            },
        ],
    };

    assert_eq!(output.unwrap(), expected);
}

#[test]
fn test_parse() {
    let src = r#"
.shell cmd

# Specify different behaviour depending on the app
alt + n [
    # ProcessName as shown by `Get-Process`
    Firefox       : echo "hello firefox"

    # Spaces are fine, no quotes required
    Google Chrome : echo "hello chrome"
]

# leading newlines are fine
# line comments should parse and be ignored
alt + h     : komorebic focus left # so should comments at the end of a line
alt + j     : komorebic focus down
alt + k     : komorebic focus up
alt + l     : komorebic focus right

# so should empty lines
alt + 1 : komorebic focus-workspace 0 # digits are fine in the hotkeys section

# trailing newlines are fine


"#;

    let output = parser(src);
    let expected = Whkdrc {
        shell: Shell::Cmd,
        app_bindings: vec![(
            vec![String::from("alt"), String::from("n")],
            vec![
                HotkeyBinding {
                    mode: None,
                    keys: vec![String::from("alt"), String::from("n")],
                    command: Some(String::from(r#"echo "hello firefox""#)),
                    internal_action: None,
                    process_name: Option::from("Firefox".to_string()),
                },
                HotkeyBinding {
                    mode: None,
                    keys: vec![String::from("alt"), String::from("n")],
                    command: Some(String::from(r#"echo "hello chrome""#)),
                    internal_action: None,
                    process_name: Option::from("Google Chrome".to_string()),
                },
            ],
        )],
        bindings: vec![
            HotkeyBinding {
                mode: None,
                keys: vec![String::from("alt"), String::from("h")],
                command: Some(String::from("komorebic focus left")),
                internal_action: None,
                process_name: None,
            },
            HotkeyBinding {
                mode: None,
                keys: vec![String::from("alt"), String::from("j")],
                command: Some(String::from("komorebic focus down")),
                internal_action: None,
                process_name: None,
            },
            HotkeyBinding {
                mode: None,
                keys: vec![String::from("alt"), String::from("k")],
                command: Some(String::from("komorebic focus up")),
                internal_action: None,
                process_name: None,
            },
            HotkeyBinding {
                mode: None,
                keys: vec![String::from("alt"), String::from("l")],
                command: Some(String::from("komorebic focus right")),
                internal_action: None,
                process_name: None,
            },
            HotkeyBinding {
                mode: None,
                keys: vec![String::from("alt"), String::from("1")],
                command: Some(String::from("komorebic focus-workspace 0")),
                internal_action: None,
                process_name: None,
            },
        ],
    };

    assert_eq!(output.unwrap(), expected);
}

#[test]
fn test_inline_process_block() {
    // `[` may share a line with the first pair; a pair's command may hold
    // `;`, `[` and `]`, and the block closes at a pair boundary
    let src = "alt + n [ Firefox : echo \"a[1]\"; echo b\nChrome App : echo \"hi chrome\"\n]\nalt + h : echo x";
    let w = parser(src).unwrap();
    assert_eq!(w.shell, Shell::Pwsh);
    assert_eq!(w.app_bindings.len(), 1);
    let (keys, bs) = &w.app_bindings[0];
    assert_eq!(keys, &vec![String::from("alt"), String::from("n")]);
    assert_eq!(bs.len(), 2);
    assert_eq!(bs[0].keys, vec![String::from("alt"), String::from("n")]);
    assert_eq!(bs[1].keys, vec![String::from("alt"), String::from("n")]);
    assert_eq!(bs[0].mode, None);
    assert_eq!(bs[1].mode, None);
    assert_eq!(bs[0].process_name, Some(String::from("Firefox")));
    assert_eq!(bs[1].process_name, Some(String::from("Chrome App")));
    assert_eq!(bs[0].command, Some(String::from("echo \"a[1]\"; echo b")));
    assert_eq!(bs[1].command, Some(String::from("echo \"hi chrome\"")));
}

#[test]
fn test_comment_whitespace_tolerance() {
    let compact = ".shell pwsh\nalt + h : echo \"Hello\"\nwindow > esc ; default";
    let airy = "\n# leading comment\n\n.shell\n# between tokens\n\npwsh\n# after the directive\n\nalt\n# one\n\n+\n# two\n\nh\n# three\n\n:\n# four\necho \"Hello\"\n# five\n\nwindow\n# six\n\n>\n# seven\n\nesc\n# eight\n\n;\n# nine\n\ndefault\n# trailing comment\n";
    let a = parser(compact).unwrap();
    let b = parser(airy).unwrap();
    assert_eq!(a, b);
    assert_eq!(a.bindings.len(), 2);
    assert_eq!(a.bindings[0].command, Some(String::from("echo \"Hello\"")));
    assert_eq!(a.bindings[1].mode, Some(String::from("window")));
    assert_eq!(a.bindings[1].internal_action, Some(None));
}

#[test]
fn test_missing_shell_defaults_to_pwsh() {
    let w = parser("alt + h : echo x").unwrap();
    assert_eq!(w.shell, Shell::Pwsh);
}

#[test]
fn test_shell_powershell() {
    let w = parser(".shell powershell\nalt + h : echo x").unwrap();
    assert_eq!(w.shell, Shell::Powershell);
}

#[test]
fn test_unknown_shell_is_error() {
    let e = parser(".shell bash\nalt + h : echo x").unwrap_err();
    assert_eq!(e.kind, ParseErrorKind::ExpectedShellName);
}

#[test]
fn test_empty_document_is_error() {
    let e = parser("").unwrap_err();
    assert_eq!(e.kind, ParseErrorKind::NoBindings);
    assert_eq!((e.line, e.col), (1, 1));
}

#[test]
fn test_comments_alone_are_no_bindings() {
    let e = parser("# only a comment\n\n# another\n").unwrap_err();
    assert_eq!(e.kind, ParseErrorKind::NoBindings);
}

#[test]
fn test_binding_without_action_is_error() {
    let e = parser("alt + h").unwrap_err();
    assert_eq!(e.kind, ParseErrorKind::ExpectedAction);
}

#[test]
fn test_error_location_line_col() {
    let e = parser("alt + h : x\nalt + ? : y").unwrap_err();
    assert_eq!(e.kind, ParseErrorKind::ExpectedKey);
    assert_eq!((e.line, e.col), (2, 7));
}

#[test]
fn test_unclosed_block_is_error() {
    let e = parser("alt + h [ Firefox : x").unwrap_err();
    assert_eq!(e.kind, ParseErrorKind::UnclosedBlock);
}

#[test]
fn test_block_after_binding_is_error() {
    let e = parser("alt + h : x\nalt + n [ Firefox : y ]").unwrap_err();
    assert_eq!(e.kind, ParseErrorKind::UnexpectedBlock);
}

#[test]
fn test_block_under_mode_is_error() {
    let e = parser("window > alt + n [ Firefox : y ]\nalt + h : x").unwrap_err();
    assert_eq!(e.kind, ParseErrorKind::UnexpectedBlock);
}

#[test]
fn test_empty_block_is_error() {
    let e = parser("alt + n [ ]\nalt + h : x").unwrap_err();
    assert_eq!(e.kind, ParseErrorKind::ExpectedProcessName);
}

#[test]
fn test_missing_mode_name_is_error() {
    let e = parser("alt + h ;").unwrap_err();
    assert_eq!(e.kind, ParseErrorKind::ExpectedModeName);
}

#[test]
fn test_default_mode_selector_is_none() {
    let w = parser("default > alt + h : echo x").unwrap();
    assert_eq!(w.bindings[0].mode, None);
}

#[test]
fn test_no_spaces_needed() {
    let w = parser("alt+h:echo x").unwrap();
    assert_eq!(
        w.bindings[0].keys,
        vec![String::from("alt"), String::from("h")]
    );
    assert_eq!(w.bindings[0].command, Some(String::from("echo x")));
}

#[test]
fn test_second_shell_directive_is_error() {
    let e = parser(".shell pwsh\n.shell cmd\nalt + h : x").unwrap_err();
    assert_eq!(e.kind, ParseErrorKind::ExpectedKey);
}
