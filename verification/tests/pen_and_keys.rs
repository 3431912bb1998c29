use annotation::canvas::Canvas;
use annotation::keys::apply_key;
use annotation::keys::command_for_key;
use annotation::keys::KeyCommand;
use annotation::pen::clamp_width;
use annotation::pen::Pen;
use annotation::pen::MAX_WIDTH;
use annotation::pen::MIN_WIDTH;

#[test]
fn clamp_width_keeps_the_range() {
    assert_eq!(clamp_width(-5), 1);
    assert_eq!(clamp_width(0), 1);
    assert_eq!(clamp_width(1), 1);
    assert_eq!(clamp_width(30), 30);
    assert_eq!(clamp_width(60), 60);
    assert_eq!(clamp_width(61), 60);
    assert_eq!(clamp_width(i64::MAX), 60);
}

#[test]
fn pen_starts_at_four() {
    assert_eq!(Pen::new().width(), 4);
}

#[test]
fn pen_steps_and_saturates() {
    let mut p = Pen::new();
    p.thicker();
    assert_eq!(p.width(), 5);
    p.thinner();
    assert_eq!(p.width(), 4);
    for _ in 0..100 {
        p.thicker();
    }
    assert_eq!(p.width(), MAX_WIDTH);
    p.thinner();
    p.thicker();
    assert_eq!(p.width(), MAX_WIDTH);
    for _ in 0..100 {
        p.thinner();
    }
    assert_eq!(p.width(), MIN_WIDTH);
    p.thicker();
    p.thinner();
    assert_eq!(p.width(), MIN_WIDTH);
}

#[test]
fn keys_map_to_commands() {
    assert_eq!(command_for_key(0xff1b), KeyCommand::Quit);
    assert_eq!(command_for_key('q' as u32), KeyCommand::Quit);
    assert_eq!(command_for_key('Q' as u32), KeyCommand::Quit);
    assert_eq!(command_for_key('c' as u32), KeyCommand::Clear);
    assert_eq!(command_for_key('C' as u32), KeyCommand::Clear);
    assert_eq!(command_for_key('+' as u32), KeyCommand::Thicker);
    assert_eq!(command_for_key('=' as u32), KeyCommand::Thicker);
    assert_eq!(command_for_key(0xffab), KeyCommand::Thicker);
    assert_eq!(command_for_key('-' as u32), KeyCommand::Thinner);
    assert_eq!(command_for_key(0xffad), KeyCommand::Thinner);
    assert_eq!(command_for_key('x' as u32), KeyCommand::Pass);
    assert_eq!(command_for_key(0xff0d), KeyCommand::Pass);
}

#[test]
fn apply_key_changes_state() {
    let mut c: Canvas<u8, (i32, i32)> = Canvas::new();
    let mut p = Pen::new();
    c.begin_stroke(1, (0, 0));
    c.extend_stroke((1, 1));
    c.end_stroke();
    assert_eq!(apply_key(&mut c, &mut p, '+' as u32), KeyCommand::Thicker);
    assert_eq!(p.width(), 5);
    assert_eq!(apply_key(&mut c, &mut p, 0xffad), KeyCommand::Thinner);
    assert_eq!(apply_key(&mut c, &mut p, 0xffad), KeyCommand::Thinner);
    assert_eq!(p.width(), 3);
    assert_eq!(apply_key(&mut c, &mut p, 'z' as u32), KeyCommand::Pass);
    assert_eq!(c.strokes().len(), 1);
    assert_eq!(apply_key(&mut c, &mut p, 'q' as u32), KeyCommand::Quit);
    assert_eq!(c.strokes().len(), 1);
    assert_eq!(p.width(), 3);
    assert_eq!(apply_key(&mut c, &mut p, 'C' as u32), KeyCommand::Clear);
    assert!(c.strokes().is_empty());
    assert_eq!(p.width(), 3);
}
