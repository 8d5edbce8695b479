use repisode::engine::{
    chars_of, compile, escapable, names_a_slot, space, special, Compiler, PAST_END,
};

fn compiled(pattern: &str) -> String {
    Compiler::new(pattern).compile()
}

fn matches(pattern: &str, name: &str) -> bool {
    compile(pattern).ok().unwrap().captures(name).is_some()
}

#[test]
fn empty_pattern_anchors_on_nothing() {
    assert_eq!(compiled(""), "(?i)^$");
    assert!(matches("", ""));
    assert!(!matches("", "a"));
}

#[test]
fn trailing_backslash_is_dropped() {
    assert_eq!(compiled("abc\\"), "(?i)^abc$");
    assert!(matches("abc\\", "abc"));
    assert!(!matches("abc\\", "abc$"));
}

#[test]
fn backslash_takes_next_character_as_it_is() {
    assert_eq!(compiled("a\\*b"), "(?i)^a\\*b$");
    assert!(matches("a\\*b", "a*b"));
    assert!(!matches("a\\*b", "axxb"));
    assert_eq!(compiled("\\@N@"), "(?i)^\\@N@$");
    assert!(matches("\\@N@", "@N@"));
    assert!(!matches("\\@N@", "7"));
    assert_eq!(compiled("\\\\"), "(?i)^\\\\$");
    assert!(matches("a\\\\b", "a\\b"));
    assert_eq!(compiled("\\|"), "(?i)^\\|$");
    assert!(matches("a\\|b", "a|b"));
    assert!(!matches("a\\|b", "a"));
}

#[test]
fn backslash_before_what_cannot_be_escaped() {
    assert_eq!(compiled("\\d"), "(?i)^d$");
    assert!(matches("\\d", "d"));
    assert!(!matches("\\d", "7"));
    assert_eq!(compiled("a\\qb"), "(?i)^aqb$");
    assert_eq!(compiled("\\7"), "(?i)^7$");
    assert_eq!(compiled("\\_"), "(?i)^_$");
    assert_eq!(compiled("\\<\\>"), "(?i)^<>$");
    assert!(matches("a\\<b", "a<b"));
    assert_eq!(compiled("\\é"), "(?i)^é$");
    assert_eq!(compiled("a\\ b"), "(?i)^a b$");
    assert!(matches("a\\ b", "a b"));
    assert!(!matches("a\\ b", "a\tb"));
    assert_eq!(compiled("\\\u{3000}"), "(?i)^\u{3000}$");
}

#[test]
fn any_whitespace_character_becomes_one_of_any_kind() {
    assert_eq!(compiled("a\u{3000}b"), "(?i)^a\\sb$");
    assert_eq!(compiled("\u{00A0}\u{0085}\u{000B}"), "(?i)^\\s\\s\\s$");
    assert_eq!(compiled("\u{1680}\u{2000}\u{200A}"), "(?i)^\\s\\s\\s$");
    assert_eq!(compiled("\u{2028}\u{2029}\u{202F}\u{205F}"), "(?i)^\\s\\s\\s\\s$");
    assert_eq!(compiled("\u{200B}\u{180E}\u{FEFF}"), "(?i)^\u{200B}\u{180E}\u{FEFF}$");
    assert!(matches("a\u{3000}b", "a b"));
    assert!(matches("a b", "a\u{3000}b"));
    assert!(!matches("a\u{3000}b", "ab"));
}

#[test]
fn replacement_character_is_an_ordinary_one() {
    assert_eq!(compiled("a\u{FFFD}b"), "(?i)^a\u{FFFD}b$");
    assert!(matches("a\u{FFFD}b", "a\u{FFFD}b"));
    assert!(!matches("a\u{FFFD}b", "a"));
}

#[test]
fn every_rule_of_the_translation() {
    assert_eq!(compiled("*"), "(?i)^.*?$");
    assert_eq!(compiled("?"), "(?i)^.?$");
    assert_eq!(compiled(" "), "(?i)^\\s$");
    assert_eq!(compiled("\t"), "(?i)^\\s$");
    assert_eq!(compiled("\n\r\x0C"), "(?i)^\\s\\s\\s$");
    assert_eq!(compiled("@N@"), "(?i)^(\\d+)$");
    assert_eq!(compiled("@N"), "(?i)^@N$");
    assert_eq!(compiled("@n@"), "(?i)^@n@$");
    assert_eq!(compiled("@@N@"), "(?i)^@(\\d+)$");
    assert_eq!(compiled("@N@@N@"), "(?i)^(\\d+)(\\d+)$");
    assert_eq!(
        compiled("^$.,{}:()[]-+|"),
        "(?i)^\\^\\$\\.\\,\\{\\}\\:\\(\\)\\[\\]\\-\\+\\|$"
    );
    assert_eq!(compiled("a<b>c"), "(?i)^a<b>c$");
    assert_eq!(compiled("aZ9_é#&~!%/=;'\"`"), "(?i)^aZ9_é#&~!%/=;'\"`$");
    assert_eq!(compiled("\u{00A0}"), "(?i)^\\s$");
}

#[test]
fn anchoring() {
    let pattern = "lmao season 1 episode @N@.mp4";
    assert!(matches(pattern, "Lmao Season 1 Episode 7.mp4"));
    assert!(!matches(pattern, "xlmao season 1 episode 7.mp4x"));
    assert!(!matches(pattern, "lmao season 1 episode 7.mp5"));
    assert!(!matches(pattern, "lmao season 1 episode 7.mp4x"));
    assert!(!matches(pattern, "xlmao season 1 episode 7.mp4"));
}

#[test]
fn escape_correctness() {
    assert!(matches("$1=2?", "$1=2"));
    assert!(matches("$1=2?", "$1=2x"));
    assert!(!matches("$1=2?", "$1=2xy"));
    assert!(!matches("$1=2?", "a1=2"));
    assert!(!matches("$1=2?", "$1x2"));
    assert!(!matches("$1=2?", "x$1=2"));
}

#[test]
fn every_special_character_matches_itself_only() {
    for c in "^$.,{}:()[]-+|<>#&~!%/=;'\"`_@".chars() {
        let text = format!("a{}b", c);
        assert!(matches(&text, &text), "{:?}", c);
        assert!(!matches(&text, "ab"), "{:?}", c);
        assert!(!matches(&text, "a"), "{:?}", c);
        assert!(!matches(&text, "b"), "{:?}", c);
        assert!(!matches(&text, &format!("x{}", text)), "{:?}", c);
        assert!(!matches(&text, &format!("{}x", text)), "{:?}", c);
        assert!(!matches(&text, "axb"), "{:?}", c);
    }
}

#[test]
fn angle_brackets_are_literal() {
    assert_eq!(compiled("a<b"), "(?i)^a<b$");
    assert_eq!(compiled("a>b"), "(?i)^a>b$");
    assert!(matches("a<b", "a<b"));
    assert!(matches("a<b", "A<B"));
    assert!(!matches("a<b", "ab"));
    assert!(matches("a>b", "a>b"));
    assert!(!matches("a>b", "ab"));
    assert!(matches("<@N@>", "<12>"));
    assert!(!matches("<@N@>", "12"));
}

#[test]
fn bar_is_literal_and_anchors_bind_the_whole_name() {
    assert_eq!(compiled("a|b"), "(?i)^a\\|b$");
    assert!(matches("a|b", "a|b"));
    assert!(!matches("a|b", "a"));
    assert!(!matches("a|b", "b"));
    assert!(!matches("a|b", "xb"));
    assert!(!matches("a|b", "ax"));
    assert!(matches("ep @N@|*", "ep 3|x"));
    assert!(!matches("ep @N@|*", "ep 3"));
}

#[test]
fn question_mark_takes_any_one_character() {
    assert!(matches("$1=2?", "$1=23"));
    assert!(matches("a?c", "abc"));
    assert!(matches("a?c", "ac"));
    assert!(!matches("a?c", "abbc"));
}

#[test]
fn star_matches_any_run() {
    assert!(matches("lmao *.txt", "lmao .txt"));
    assert!(matches("lmao *.txt", "LMAO anything at all.txt"));
    assert!(!matches("lmao *.txt", "lmao x.txtx"));
    assert!(matches("a b", "a\tb"));
    assert!(!matches("a b", "a  b"));
}

#[test]
fn captures_give_byte_offsets_of_every_group() {
    let m = compile("é @N@ - @N@").ok().unwrap();
    assert_eq!(m.as_str(), "(?i)^é\\s(\\d+)\\s\\-\\s(\\d+)$");
    assert_eq!(m.slots(), 2);
    let groups = m.captures("É 12 - 007").unwrap();
    assert_eq!(groups, vec![Some((0, 11)), Some((3, 5)), Some((8, 11))]);
    assert_eq!(m.captures("É 12 - x"), None);
}

#[test]
fn compile_counts_slots() {
    assert_eq!(compile("no slot").ok().unwrap().slots(), 0);
    assert_eq!(compile("@N@x@N@y@N@").ok().unwrap().slots(), 3);
    assert_eq!(compile("\\@N@").ok().unwrap().slots(), 0);
}

#[test]
fn compile_error_is_surfaced() {
    let r = compile(&"@N@".repeat(20000));
    match r {
        Ok(_) => panic!("an expression of this size must be refused"),
        Err(e) => assert!(!e.message.is_empty()),
    }
}

#[test]
fn reader_steps_and_looks_ahead() {
    let mut c = Compiler::new("@N@x");
    assert_eq!(c.peek(), '@');
    assert_eq!(c.offset(), 0);
    assert!(!c.at_end());
    assert!(c.ahead_is("N@"));
    assert!(c.ahead_is("N@x"));
    assert!(c.ahead_is(""));
    assert!(!c.ahead_is("N@xy"));
    assert!(!c.ahead_is("n@"));
    c.read();
    assert_eq!(c.peek(), 'N');
    assert_eq!(c.offset(), 1);
    c.read();
    c.read();
    assert_eq!(c.peek(), 'x');
    assert!(c.ahead_is(""));
    assert!(!c.ahead_is("x"));
    c.read();
    assert!(c.at_end());
    assert_eq!(c.peek(), PAST_END);
    assert_eq!(c.offset(), 4);
    assert!(!c.ahead_is(""));
    c.read();
    assert!(c.at_end());
    assert_eq!(c.offset(), 5);
    assert_eq!(c.peek(), '\u{FFFD}');
    c.read();
    assert_eq!(c.offset(), 6);
    assert!(!c.ahead_is(""));
    assert_eq!(c.compile(), "(?i)^$");
}

#[test]
fn reader_on_empty_text() {
    let mut c = Compiler::new("");
    assert!(c.at_end());
    assert_eq!(c.peek(), PAST_END);
    assert_eq!(c.offset(), 0);
    assert!(!c.ahead_is(""));
    c.read();
    assert!(c.at_end());
    assert_eq!(c.offset(), 1);
}

#[test]
fn ahead_is_compares_characters() {
    let c = Compiler::new("aéb");
    assert!(c.ahead_is("é"));
    assert!(c.ahead_is("éb"));
    assert!(!c.ahead_is("eb"));
}

#[test]
fn compile_from_the_middle() {
    let mut c = Compiler::new("ab*");
    c.read();
    assert_eq!(c.compile(), "(?i)^b.*?$");
    let mut c = Compiler::new("x@N@");
    c.read();
    assert_eq!(c.translate(), ("(?i)^(\\d+)$".to_string(), 1));
}

#[test]
fn character_classes() {
    let spaces = [
        '\u{0009}', '\u{000A}', '\u{000B}', '\u{000C}', '\u{000D}', '\u{0020}', '\u{0085}',
        '\u{00A0}', '\u{1680}', '\u{2000}', '\u{2001}', '\u{2002}', '\u{2003}', '\u{2004}',
        '\u{2005}', '\u{2006}', '\u{2007}', '\u{2008}', '\u{2009}', '\u{200A}', '\u{2028}',
        '\u{2029}', '\u{202F}', '\u{205F}', '\u{3000}',
    ];
    for c in spaces {
        assert!(space(c));
        assert!(c.is_whitespace());
    }
    for c in ['a', '0', '\u{0008}', '\u{000E}', '\u{001F}', '\u{0084}', '\u{0086}', '\u{180E}',
        '\u{1FFF}', '\u{200B}', '\u{2027}', '\u{202A}', '\u{2060}', '\u{2FFF}', '\u{3001}',
        '\u{FEFF}']
    {
        assert!(!space(c));
        assert!(!c.is_whitespace());
    }
    for c in "!\"#$%&'()*+,-./:;=?@[\\]^`{|}~".chars() {
        assert!(escapable(c));
    }
    for c in ['<', '>', '_', 'a', 'Z', '0', '9', ' ', '\t', '\u{007F}', '\u{0020}', 'é', '\u{3000}'] {
        assert!(!escapable(c));
    }
    for c in "^$.,{}\\|?*:()[]-+".chars() {
        assert!(special(c));
    }
    for c in ['a', '<', '>', '#', '&', '~', '@', ' ', '/', '_'] {
        assert!(!special(c));
    }
    assert_eq!(chars_of("aé\u{1F600}"), vec!['a', 'é', '\u{1F600}']);
    assert_eq!(chars_of(""), Vec::<char>::new());
}

#[test]
fn slot_presence() {
    assert!(names_a_slot("@N@"));
    assert!(names_a_slot("ep @N@.mp4"));
    assert!(names_a_slot("\\@N@"));
    assert!(!names_a_slot(""));
    assert!(!names_a_slot("@N"));
    assert!(!names_a_slot("@n@"));
    assert!(!names_a_slot("@ N@"));
    assert!(names_a_slot("@@N@"));
}
