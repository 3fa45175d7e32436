use visual_pixels::engine::{create_ui, EngineError, Key, Mode};
use visual_pixels::keys::{parse_keys, render, split_words, MalformedToken};

fn text(s: &str) -> Vec<char> {
    s.chars().collect()
}

fn run(ui: &mut visual_pixels::engine::Editor, keys: Vec<Key>) {
    let mut effects = Vec::new();
    for k in keys {
        ui.feed(k, &mut effects);
    }
}

fn command(line: &str) -> Vec<Key> {
    let mut keys = vec![Key::Char(':')];
    keys.extend(line.chars().map(Key::Char));
    keys.push(Key::Enter);
    keys
}

#[test]
fn parse_named_and_bare_keys() {
    assert_eq!(
        parse_keys(&text("<Esc>hi")),
        Ok(vec![Key::Esc, Key::Char('h'), Key::Char('i')])
    );
    assert_eq!(parse_keys(&text("<Left><Right><Up><Down><CR>")),
        Ok(vec![Key::Left, Key::Right, Key::Up, Key::Down, Key::Enter]));
    assert_eq!(parse_keys(&text("")), Ok(vec![]));
}

#[test]
fn parse_modifiers() {
    assert_eq!(parse_keys(&text("<S-+>")), Ok(vec![Key::Char('+')]));
    assert_eq!(parse_keys(&text("<C-a><A-b>")), Ok(vec![Key::Ctrl('a'), Key::Alt('b')]));
}

#[test]
fn parse_rejects_malformed() {
    assert_eq!(parse_keys(&text("<Esc")), Err(MalformedToken { at: 0 }));
    assert_eq!(parse_keys(&text("a<Foo>b")), Err(MalformedToken { at: 1 }));
    assert_eq!(parse_keys(&text("ab<X-y>")), Err(MalformedToken { at: 2 }));
}

#[test]
fn split_on_whitespace() {
    let ws = split_words(&text("  imap\t<Left>  x "));
    assert_eq!(ws, vec![text("imap"), text("<Left>"), text("x")]);
    assert!(split_words(&text("   ")).is_empty());
}

#[test]
fn imap_command_adds_insert_remap() {
    let mut ui = create_ui(8, 8);
    run(&mut ui, command("imap x <Esc>li"));
    assert_eq!(ui.error, None);
    assert_eq!(ui.get_mode(), Mode::Normal);
    run(&mut ui, vec![Key::Char('i'), Key::Char('x')]);
    assert_eq!(ui.get_cursor(), (1, 0));
    assert_eq!(ui.get_mode(), Mode::Insertion);
}

#[test]
fn imap_with_bad_arguments_is_reported() {
    let mut ui = create_ui(8, 8);
    run(&mut ui, command("imap x"));
    assert_eq!(ui.error, Some(EngineError::BadArguments));
    run(&mut ui, command("imap <Nope> l"));
    assert_eq!(ui.error, Some(EngineError::BadArguments));
    run(&mut ui, command("imap a b c"));
    assert_eq!(ui.error, Some(EngineError::BadArguments));
}

#[test]
fn imap_with_two_key_trigger() {
    let mut ui = create_ui(8, 8);
    run(&mut ui, command("imap jk <Esc>"));
    assert_eq!(ui.error, None);
    let mut effects = Vec::new();
    ui.feed(Key::Char('i'), &mut effects);
    assert_eq!(ui.get_mode(), Mode::Insertion);
    ui.feed(Key::Char('j'), &mut effects);
    assert_eq!(ui.typed, vec![Key::Char('j')]);
    // `i` gave one effect; the waiting `j` gives none yet.
    assert_eq!(effects.len(), 1);
    ui.feed(Key::Char('k'), &mut effects);
    assert_eq!(ui.get_mode(), Mode::Normal);
    assert!(ui.typed.is_empty());
    assert_eq!(effects.len(), 2);
}

#[test]
fn unmatched_typed_keys_are_flushed_in_order() {
    let mut ui = create_ui(8, 8);
    run(&mut ui, command("imap jk <Esc>"));
    let mut effects = Vec::new();
    ui.feed(Key::Char('i'), &mut effects);
    ui.feed(Key::Char('j'), &mut effects);
    ui.feed(Key::Char('x'), &mut effects);
    assert!(ui.typed.is_empty());
    assert_eq!(ui.get_mode(), Mode::Insertion);
    let typed: Vec<char> = effects
        .iter()
        .filter_map(|e| match e {
            visual_pixels::engine::Effect::Edit(c, _) => Some(*c),
            _ => None,
        })
        .collect();
    assert_eq!(typed, vec!['j', 'x']);
}

#[test]
fn two_key_normal_remap_moves() {
    let mut ui = create_ui(8, 8);
    ui.bind_key(vec![Key::Char('g'), Key::Char('g')], Mode::Normal, vec![Key::Char('l'), Key::Char('l')]);
    run(&mut ui, vec![Key::Char('g')]);
    assert_eq!(ui.get_cursor(), (0, 0));
    run(&mut ui, vec![Key::Char('g')]);
    assert_eq!(ui.get_cursor(), (2, 0));
}

#[test]
fn quit_with_surrounding_spaces_closes() {
    let mut ui = create_ui(8, 8);
    run(&mut ui, command("  quit "));
    assert!(ui.closed);
}

#[test]
fn render_round_trips_through_parse() {
    let keys = vec![
        Key::Char('a'),
        Key::Char('<'),
        Key::Char('>'),
        Key::Ctrl('x'),
        Key::Alt('b'),
        Key::Esc,
        Key::Enter,
        Key::Left,
        Key::Right,
        Key::Up,
        Key::Down,
    ];
    for k in keys {
        assert_eq!(parse_keys(&render(k)), Ok(vec![k]));
    }
    assert_eq!(render(Key::Esc), text("<Esc>"));
    assert_eq!(render(Key::Char('<')), text("<lt>"));
}
