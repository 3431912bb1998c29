use annotation::canvas::Canvas;
use annotation::canvas::Stroke;

type Style = ((f64, f64, f64), f64);
type Point = (f64, f64);

fn painted(c: &Canvas<Style, Point>) -> Vec<Vec<Point>> {
    c.painted_strokes().iter().map(|s: &&Stroke<Style, Point>| s.points.clone()).collect()
}

const RED: Style = ((1.0, 0.0, 0.0), 4.0);
const BLUE: Style = ((0.0, 0.0, 1.0), 10.0);

#[test]
fn new_canvas_is_empty() {
    let c: Canvas<Style, Point> = Canvas::new();
    assert!(c.strokes().is_empty());
    assert!(c.current().is_none());
    assert!(painted(&c).is_empty());
}

#[test]
fn click_without_move_keeps_nothing() {
    let mut c: Canvas<Style, Point> = Canvas::new();
    c.begin_stroke(RED, (1.0, 1.0));
    assert!(painted(&c).is_empty());
    c.end_stroke();
    assert!(c.strokes().is_empty());
    assert!(c.current().is_none());
}

#[test]
fn drag_keeps_a_stroke() {
    let mut c: Canvas<Style, Point> = Canvas::new();
    c.begin_stroke(RED, (1.0, 1.0));
    c.extend_stroke((2.0, 3.0));
    assert_eq!(painted(&c), vec![vec![(1.0, 1.0), (2.0, 3.0)]]);
    c.extend_stroke((4.0, 5.0));
    c.end_stroke();
    assert_eq!(c.strokes().len(), 1);
    assert_eq!(c.strokes()[0].style, RED);
    assert_eq!(c.strokes()[0].points, vec![(1.0, 1.0), (2.0, 3.0), (4.0, 5.0)]);
    assert!(c.current().is_none());
}

#[test]
fn move_without_press_changes_nothing() {
    let mut c: Canvas<Style, Point> = Canvas::new();
    c.extend_stroke((2.0, 3.0));
    c.end_stroke();
    assert!(c.strokes().is_empty());
}

#[test]
fn strokes_are_painted_oldest_first_then_current() {
    let mut c: Canvas<Style, Point> = Canvas::new();
    c.begin_stroke(RED, (0.0, 0.0));
    c.extend_stroke((1.0, 0.0));
    c.end_stroke();
    c.begin_stroke(BLUE, (5.0, 5.0));
    c.extend_stroke((6.0, 6.0));
    c.end_stroke();
    c.begin_stroke(RED, (9.0, 9.0));
    assert_eq!(
        painted(&c),
        vec![vec![(0.0, 0.0), (1.0, 0.0)], vec![(5.0, 5.0), (6.0, 6.0)]]
    );
    c.extend_stroke((8.0, 8.0));
    assert_eq!(painted(&c).len(), 3);
    assert_eq!(c.current().map(|s| s.style), Some(RED));
}

#[test]
fn new_press_drops_unfinished_stroke() {
    let mut c: Canvas<Style, Point> = Canvas::new();
    c.begin_stroke(RED, (0.0, 0.0));
    c.extend_stroke((1.0, 1.0));
    c.begin_stroke(BLUE, (7.0, 7.0));
    c.end_stroke();
    assert!(c.strokes().is_empty());
}

#[test]
fn clear_takes_everything_away() {
    let mut c: Canvas<Style, Point> = Canvas::new();
    c.begin_stroke(RED, (0.0, 0.0));
    c.extend_stroke((1.0, 0.0));
    c.end_stroke();
    c.begin_stroke(BLUE, (5.0, 5.0));
    c.extend_stroke((6.0, 6.0));
    c.clear();
    assert!(c.strokes().is_empty());
    assert!(c.current().is_none());
    assert!(painted(&c).is_empty());
    c.end_stroke();
    assert!(c.strokes().is_empty());
}
