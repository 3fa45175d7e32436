use visual_pixels::cursor::{wrapping_displace, Motion};
use visual_pixels::engine::{create_ui, Command, Editor, Effect, EngineError, Key, Mode, Verb};
use visual_pixels::geometry::VisualType;

fn sorted(mut v: Vec<(usize, usize)>) -> Vec<(usize, usize)> {
    v.sort();
    v.dedup();
    v
}

fn feed_all(ui: &mut Editor, keys: &[Key]) -> Vec<Effect> {
    let mut effects = Vec::new();
    for k in keys {
        ui.feed(*k, &mut effects);
    }
    effects
}

fn chars(s: &str) -> Vec<Key> {
    s.chars().map(Key::Char).collect()
}

#[test]
fn right_motion_full_cycle_returns() {
    let (w, h) = (5usize, 3usize);
    let mut c = (0usize, 2usize);
    for _ in 0..w {
        c = wrapping_displace(c, Motion::Right, w, h);
    }
    assert_eq!(c, (0, 2));
    for _ in 0..h {
        c = wrapping_displace(c, Motion::Up, w, h);
    }
    assert_eq!(c, (0, 2));
}

#[test]
fn motions_wrap_at_edges() {
    assert_eq!(wrapping_displace((0, 0), Motion::Left, 4, 3), (3, 0));
    assert_eq!(wrapping_displace((3, 2), Motion::Right, 4, 3), (0, 2));
    assert_eq!(wrapping_displace((1, 2), Motion::Down, 4, 3), (1, 0));
    assert_eq!(wrapping_displace((1, 0), Motion::Up, 4, 3), (1, 2));
    assert_eq!(wrapping_displace((1, 1), Motion::Stay, 4, 3), (1, 1));
}

#[test]
fn hjkl_keys_move_the_cursor() {
    let mut ui = create_ui(16, 16);
    feed_all(&mut ui, &chars("lljk"));
    assert_eq!(ui.get_cursor(), (2, 0));
    feed_all(&mut ui, &chars("hhh"));
    assert_eq!(ui.get_cursor(), (15, 0));
}

#[test]
fn square_selection_single_point() {
    let r = VisualType::Square.selection((2, 2), (2, 2));
    assert_eq!(sorted(r), vec![(2, 2)]);
}

#[test]
fn square_selection_three_by_three() {
    let r = VisualType::Square.selection((1, 1), (3, 3));
    let mut expected = Vec::new();
    for x in 1..4 {
        for y in 1..4 {
            expected.push((x, y));
        }
    }
    assert_eq!(sorted(r), expected);
}

#[test]
fn circle_selection_is_a_ring() {
    let r = sorted(VisualType::Circle.selection((0, 0), (4, 4)));
    for &(x, y) in &r {
        let d2 = (x as i64 - 2).pow(2) + (y as i64 - 2).pow(2);
        assert!((d2 - 4).abs() <= 2);
    }
    assert!(!r.contains(&(2, 2)));
    assert!(r.contains(&(0, 2)));
    assert!(r.contains(&(1, 1)));
    assert!(!r.contains(&(0, 0)));
    // d² of 2, 4 and 5: four, four and eight pixels.
    assert_eq!(r.len(), 16);
}

#[test]
fn circle_selection_degenerate_keeps_centre() {
    let r = VisualType::Circle.selection((3, 5), (3, 5));
    assert_eq!(sorted(r), vec![(3, 5)]);
}

#[test]
fn select_pixels_adds_to_existing_set() {
    let mut set = vec![(9, 9)];
    VisualType::Square.select_pixels(&mut set, (0, 0), (1, 0));
    assert_eq!(sorted(set), vec![(0, 0), (1, 0), (9, 9)]);
}

#[test]
fn pending_verb_waits_for_object() {
    let mut ui = create_ui(8, 8);
    let effects = feed_all(&mut ui, &chars("s"));
    assert!(matches!(effects[0], Effect::Nil));
    assert_eq!(ui.get_cursor(), (0, 0));
    assert_eq!(ui.get_mode(), Mode::Normal);
    let effects = feed_all(&mut ui, &chars("l"));
    match &effects[0] {
        Effect::Fill(ps) => assert_eq!(ps, &vec![(0, 0), (1, 0)]),
        other => panic!("unexpected effect {:?}", other),
    }
    // The verb is used up: a further motion only moves.
    let effects = feed_all(&mut ui, &chars("l"));
    assert!(matches!(effects[0], Effect::Nil));
    assert_eq!(ui.get_cursor(), (2, 0));
}

#[test]
fn pending_verb_cancelled_by_unknown_key() {
    let mut ui = create_ui(8, 8);
    let effects = feed_all(&mut ui, &chars("sxl"));
    assert!(effects.iter().all(|e| matches!(e, Effect::Nil)));
    assert_eq!(ui.get_cursor(), (1, 0));
}

#[test]
fn remap_to_motions_terminates() {
    let mut ui = create_ui(8, 8);
    ui.bind_key(vec![Key::Char('a')], Mode::Normal, chars("bb"));
    ui.bind_key(vec![Key::Char('b')], Mode::Normal, chars("l"));
    feed_all(&mut ui, &chars("a"));
    assert_eq!(ui.get_cursor(), (2, 0));
    assert_eq!(ui.error, None);
}

#[test]
fn self_remap_is_cut_off() {
    let mut ui = create_ui(8, 8);
    ui.bind_key(vec![Key::Char('x')], Mode::Normal, chars("x"));
    let effects = feed_all(&mut ui, &chars("x"));
    assert!(effects.is_empty());
    assert_eq!(ui.error, Some(EngineError::RemapCycle));
    // A growing remap stops too.
    ui.bind_key(vec![Key::Char('y')], Mode::Normal, chars("yy"));
    feed_all(&mut ui, &chars("y"));
    assert_eq!(ui.error, Some(EngineError::RemapCycle));
    assert_eq!(ui.get_cursor(), (0, 0));
}

#[test]
fn later_binding_wins() {
    let mut ui = create_ui(8, 8);
    ui.bind_key(vec![Key::Char('a')], Mode::Normal, chars("l"));
    ui.bind_key(vec![Key::Char('a')], Mode::Normal, chars("j"));
    feed_all(&mut ui, &chars("a"));
    assert_eq!(ui.get_cursor(), (0, 1));
}

#[test]
fn quit_command_closes_on_next_input() {
    let mut ui = create_ui(8, 8);
    let mut effects = Vec::new();
    let mut keys = chars(":quit");
    keys.push(Key::Enter);
    assert!(ui.input(&keys, &mut effects));
    assert_eq!(ui.get_mode(), Mode::Normal);
    assert!(!ui.input(&Vec::new(), &mut effects));
}

#[test]
fn short_quit_command_closes() {
    let mut ui = create_ui(8, 8);
    let mut effects = Vec::new();
    let mut keys = chars(":q");
    keys.push(Key::Enter);
    assert!(ui.input(&keys, &mut effects));
    assert!(!ui.input(&chars("l"), &mut effects));
    assert_eq!(ui.get_cursor(), (0, 0));
}

#[test]
fn unknown_command_is_reported() {
    let mut ui = create_ui(8, 8);
    let mut keys = chars(":nope");
    keys.push(Key::Enter);
    feed_all(&mut ui, &keys);
    assert_eq!(ui.error, Some(EngineError::UnknownCommand));
    assert_eq!(ui.get_mode(), Mode::Normal);
    assert!(ui.buffer.is_empty());
    let mut effects = Vec::new();
    assert!(ui.input(&Vec::new(), &mut effects));
}

#[test]
fn escape_aborts_command_line() {
    let mut ui = create_ui(8, 8);
    let mut keys = chars(":qu");
    keys.push(Key::Esc);
    feed_all(&mut ui, &keys);
    assert_eq!(ui.get_mode(), Mode::Normal);
    assert!(ui.buffer.is_empty());
    assert!(!ui.closed);
}

#[test]
fn visual_square_then_insert_selects_rectangle() {
    let mut ui = create_ui(16, 16);
    feed_all(&mut ui, &chars("lv"));
    assert_eq!(ui.get_mode(), Mode::Visual);
    feed_all(&mut ui, &chars("llj"));
    let (a, b) = ui.get_selection();
    assert_eq!((a, b), ((1, 0), (3, 1)));
    feed_all(&mut ui, &chars("i"));
    assert_eq!(ui.get_mode(), Mode::Insertion);
    assert_eq!(sorted(ui.selection.clone()), sorted(VisualType::Square.selection(a, b)));
    assert_eq!(ui.selection.len(), 6);
    assert_eq!(ui.anchor, None);
}

#[test]
fn visual_circle_then_insert_selects_ring() {
    let mut ui = create_ui(16, 16);
    feed_all(&mut ui, &chars("Vlllljjjj"));
    let (a, b) = ui.get_selection();
    assert_eq!((a, b), ((0, 0), (4, 4)));
    feed_all(&mut ui, &chars("i"));
    assert_eq!(sorted(ui.selection.clone()), sorted(VisualType::Circle.selection(a, b)));
}

#[test]
fn insert_paints_cursor_or_selection() {
    let mut ui = create_ui(8, 8);
    let effects = feed_all(&mut ui, &chars("lia"));
    match &effects[2] {
        Effect::Edit(c, ps) => {
            assert_eq!(*c, 'a');
            assert_eq!(ps, &vec![(1, 0)]);
        }
        other => panic!("unexpected effect {:?}", other),
    }
    let mut keys = vec![Key::Esc];
    keys.extend(chars("vlie"));
    let effects = feed_all(&mut ui, &keys);
    match effects.last().unwrap() {
        Effect::Edit(c, ps) => {
            assert_eq!(*c, 'e');
            assert_eq!(sorted(ps.clone()), vec![(1, 0), (2, 0)]);
        }
        other => panic!("unexpected effect {:?}", other),
    }
    // Escape drops the selection.
    feed_all(&mut ui, &[Key::Esc]);
    assert!(ui.selection.is_empty());
    assert_eq!(ui.get_mode(), Mode::Normal);
}

#[test]
fn arrows_move_in_insert_mode() {
    let mut ui = create_ui(8, 8);
    feed_all(&mut ui, &chars("i"));
    feed_all(&mut ui, &[Key::Right, Key::Right, Key::Down, Key::Left]);
    assert_eq!(ui.get_cursor(), (1, 1));
    assert_eq!(ui.get_mode(), Mode::Insertion);
    feed_all(&mut ui, &[Key::Up]);
    assert_eq!(ui.get_cursor(), (1, 0));
}

#[test]
fn zoom_and_pan_verbs_report_effects() {
    let mut ui = create_ui(8, 8);
    let effects = feed_all(&mut ui, &chars("+-HL"));
    assert!(matches!(effects[0], Effect::Zoom(true)));
    assert!(matches!(effects[1], Effect::Zoom(false)));
    assert!(matches!(effects[2], Effect::Pan(Motion::Left)));
    assert!(matches!(effects[3], Effect::Pan(Motion::Right)));
    assert_eq!(ui.get_cursor(), (0, 0));
}

#[test]
fn square_selection_at_largest_coordinates() {
    let m = usize::MAX;
    let r = VisualType::Square.selection((m - 1, m), (m, m));
    assert_eq!(sorted(r), vec![(m - 1, m), (m, m)]);
}

#[test]
fn circle_selection_far_from_origin() {
    let base = usize::MAX - 10;
    let near = sorted(VisualType::Circle.selection((0, 0), (4, 4)));
    let far = sorted(VisualType::Circle.selection((base, base), (base + 4, base + 4)));
    let shifted: Vec<(usize, usize)> = near.iter().map(|&(x, y)| (x + base, y + base)).collect();
    assert_eq!(far, shifted);
}

#[test]
fn select_pixels_keeps_prefix_and_adds_once() {
    let mut set = vec![(5, 5), (1, 1)];
    VisualType::Square.select_pixels(&mut set, (0, 0), (2, 2));
    assert_eq!(&set[..2], &[(5, 5), (1, 1)]);
    let added = sorted(set[2..].to_vec());
    assert_eq!(added.len(), set.len() - 2);
    // (1, 1) was already there and is not added again.
    assert_eq!(added.len(), 8);
    assert!(!added.contains(&(1, 1)));
}

#[test]
fn highlighted_follows_mode() {
    let mut ui = create_ui(8, 8);
    assert_eq!(ui.highlighted(), vec![(0, 0)]);
    feed_all(&mut ui, &chars("vll"));
    assert_eq!(sorted(ui.highlighted()), vec![(0, 0), (1, 0), (2, 0)]);
    feed_all(&mut ui, &chars("i"));
    assert_eq!(sorted(ui.highlighted()), vec![(0, 0), (1, 0), (2, 0)]);
}

#[test]
fn policy_kept_across_motions() {
    let mut ui = create_ui(8, 8);
    feed_all(&mut ui, &chars("Vlj"));
    assert_eq!(ui.policy, VisualType::Circle);
    assert_eq!(ui.anchor, Some((0, 0)));
}

#[test]
fn registering_a_verb_replaces_the_earlier_one() {
    let mut ui = create_ui(8, 8);
    // `+` now pans instead of zooming.
    ui.add_verb(Key::Char('+'), false, Verb::Pan(Motion::Up));
    let effects = feed_all(&mut ui, &chars("+"));
    assert!(matches!(effects[0], Effect::Pan(Motion::Up)));
    // `w` becomes a motion and `f` a fill that waits for it.
    ui.add_object(Key::Char('w'), Motion::Down);
    ui.add_verb(Key::Char('f'), true, Verb::Fill);
    let effects = feed_all(&mut ui, &chars("fw"));
    match &effects[1] {
        Effect::Fill(ps) => assert_eq!(ps, &vec![(0, 0), (0, 1)]),
        other => panic!("unexpected effect {:?}", other),
    }
    assert_eq!(ui.get_cursor(), (0, 1));
}

#[test]
fn registering_a_command_name() {
    let mut ui = create_ui(8, 8);
    ui.add_command(vec!['x'], Command::Quit);
    let mut keys = chars(":x");
    keys.push(Key::Enter);
    feed_all(&mut ui, &keys);
    assert!(ui.closed);
}

#[test]
fn positional_verb_registered_without_positions_does_nothing() {
    let mut ui = create_ui(8, 8);
    ui.add_verb(Key::Char('s'), false, Verb::Fill);
    let effects = feed_all(&mut ui, &chars("sl"));
    assert!(effects.iter().all(|e| matches!(e, Effect::Nil)));
    assert_eq!(ui.get_cursor(), (1, 0));
}

#[test]
fn close_request_ends_input() {
    let mut ui = create_ui(8, 8);
    let mut effects = Vec::new();
    ui.close();
    assert!(!ui.input(&chars("l"), &mut effects));
    assert_eq!(ui.get_cursor(), (0, 0));
}
