use stippling::gcode::{Command, PrintMode, Printer, FEED_RATE, Z0, Z_END, Z_PLUNGE};

fn preamble(x: i64, y: i64) -> Vec<Command> {
    vec![
        Command::ModelCheck,
        Command::Millimeters,
        Command::Absolute,
        Command::Home,
        Command::Blank,
        Command::Park { x, y },
        Command::SetOrigin,
        Command::Blank,
    ]
}

#[test]
fn printer_starts_with_the_preamble() {
    let p = Printer::new((100, 200), (1100, 1700), PrintMode::DOTS);
    assert_eq!(p.commands, preamble(100, 200));
    assert_eq!(p.width, 1000);
    assert_eq!(p.height, 1500);
    assert_eq!(p.scale, None);
    assert_eq!(p.mode, PrintMode::DOTS);
}

#[test]
fn heights_and_feed_are_in_tenths() {
    assert_eq!((FEED_RATE, Z0, Z_END, Z_PLUNGE), (10_000, 100, 800, 40));
}

#[test]
fn rescale_is_the_affine_map() {
    assert_eq!(Printer::rescale(5, 0, 10, 0, 100), 50);
    assert_eq!(Printer::rescale(5, 0, 10, 100, 200), 150);
    assert_eq!(Printer::rescale(15, 10, 20, -50, 50), 0);
    assert_eq!(Printer::rescale(1, 0, 3, 0, 10), 3);
    assert_eq!(Printer::rescale(-1, 0, 3, 0, 10), -3);
    assert_eq!(Printer::rescale(0, 0, 3, 7, 10), 7);
    assert_eq!(Printer::rescale(3, 0, 3, 7, 10), 10);
    assert_eq!(Printer::rescale(2, 10, 0, 0, 100), 80);
    assert_eq!(
        Printer::rescale(i32::MAX, i32::MIN, i32::MIN + 1, i32::MIN, i32::MAX),
        4294967295i128 * 4294967295i128 + i32::MIN as i128
    );
}

#[test]
fn goto_dots_plunges_at_the_point() {
    let mut p = Printer::new((0, 0), (1000, 1000), PrintMode::DOTS);
    p.goto(12, 34);
    let mut expected = preamble(0, 0);
    expected.extend([
        Command::Note { x: 12, y: 34 },
        Command::Travel { x: 12, y: 34 },
        Command::Plunge,
        Command::Lift,
        Command::Blank,
    ]);
    assert_eq!(p.commands, expected);
}

#[test]
fn goto_lines_only_travels() {
    let mut p = Printer::new((0, 0), (1000, 1000), PrintMode::LINES);
    p.goto(-5, 7);
    let mut expected = preamble(0, 0);
    expected.extend([
        Command::Note { x: -5, y: 7 },
        Command::Travel { x: -5, y: 7 },
        Command::Blank,
    ]);
    assert_eq!(p.commands, expected);
}

#[test]
fn goto_scales_from_the_source_extent() {
    let mut p = Printer::new((50, 50), (2050, 1050), PrintMode::LINES);
    p.set_scale(400, 300);
    assert_eq!(p.scale, Some((400, 300)));
    p.goto(100, 150);
    p.goto(401, 7);
    let mut expected = preamble(50, 50);
    expected.extend([
        Command::Note { x: 100, y: 150 },
        Command::Travel { x: 500, y: 500 },
        Command::Blank,
        Command::Note { x: 401, y: 7 },
        Command::Travel { x: 2005, y: 23 },
        Command::Blank,
    ]);
    assert_eq!(p.commands, expected);
}

#[test]
fn goto_scales_at_the_limits() {
    let mut p = Printer::new((0, 0), (i32::MAX, i32::MIN), PrintMode::LINES);
    p.set_scale(1, -1);
    p.goto(i32::MIN, i32::MIN);
    let last = p.commands[p.commands.len() - 2];
    assert_eq!(
        last,
        Command::Travel {
            x: (i32::MIN as i64) * (i32::MAX as i64),
            y: -((i32::MIN as i64) * (i32::MIN as i64)),
        }
    );
}

#[test]
fn program_ends_with_the_postamble() {
    let mut p = Printer::new((0, 0), (10, 10), PrintMode::DOTS);
    p.goto(1, 1);
    let program = p.program();
    assert_eq!(program.len(), p.commands.len() + 5);
    assert_eq!(program[..p.commands.len()], p.commands[..]);
    assert_eq!(
        program[p.commands.len()..],
        [
            Command::Farewell,
            Command::Relative,
            Command::Raise,
            Command::Absolute,
            Command::MotorsOff,
        ]
    );
}
