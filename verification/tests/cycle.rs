use twixelwall::canvas::Canvas;
use twixelwall::command::{Color, ParseError, PixelCommand};
use twixelwall::update::{begin, receive, step, Action, Cycle, Event, UpdateError};

const WHITE: Color = Color { r: 255, g: 255, b: 255, a: 255 };
const RED: Color = Color { r: 255, g: 0, b: 0, a: 255 };

fn white(width: u32, height: u32) -> Canvas {
    Canvas::from_pixels(width, height, vec![WHITE; (width as usize) * (height as usize)]).unwrap()
}

fn red_at(x: u32, y: u32) -> PixelCommand {
    PixelCommand { x, y, color: RED }
}

#[test]
fn command_inside_asks_for_load() {
    let (state, action) = begin(red_at(3, 4), 10, 10);
    assert_eq!(state, Cycle::Loading(red_at(3, 4)));
    assert!(matches!(action, Action::Load));
}

#[test]
fn command_outside_is_dropped() {
    for &(x, y) in &[(12u32, 4u32), (10, 0), (0, 10), (10, 10)] {
        let (state, action) = begin(red_at(x, y), 10, 10);
        assert_eq!(state, Cycle::Finished);
        assert!(matches!(action, Action::Finish(Ok(()))));
    }
    let (state, action) = begin(red_at(0, 0), 0, 0);
    assert_eq!(state, Cycle::Finished);
    assert!(matches!(action, Action::Finish(Ok(()))));
}

#[test]
fn line_that_is_no_command_is_discarded() {
    assert!(matches!(receive("3 4 999 0 0", 10, 10), Err(ParseError::ColorOutOfRange)));
    assert!(matches!(receive("hello there", 10, 10), Err(ParseError::Malformed)));
    assert!(matches!(receive("3 4 5", 10, 10), Err(ParseError::ArityMismatch)));
}

#[test]
fn line_that_is_a_command_begins_a_cycle() {
    match receive("3 4 255 0 0", 10, 10) {
        Ok((state, action)) => {
            assert_eq!(state, Cycle::Loading(red_at(3, 4)));
            assert!(matches!(action, Action::Load));
        }
        Err(e) => panic!("{:?}", e),
    }
    match receive("12 4 255 0 0", 10, 10) {
        Ok((state, action)) => {
            assert_eq!(state, Cycle::Finished);
            assert!(matches!(action, Action::Finish(Ok(()))));
        }
        Err(e) => panic!("{:?}", e),
    }
}

#[test]
fn full_cycle_publishes_the_painted_canvas() {
    let (state, _) = begin(red_at(3, 4), 10, 10);
    let (state, action) = step(state, Event::Loaded(white(10, 10)));
    assert_eq!(state, Cycle::Encoding);
    match action {
        Action::Encode(canvas) => {
            assert_eq!(canvas.width(), 10);
            assert_eq!(canvas.height(), 10);
            for y in 0..10u32 {
                for x in 0..10u32 {
                    let expected = if (x, y) == (3, 4) { RED } else { WHITE };
                    assert_eq!(canvas.get_pixel(x, y), Some(expected));
                }
            }
        }
        other => panic!("{:?}", other),
    }
    let (state, action) = step(state, Event::Encoded);
    assert_eq!(state, Cycle::Publishing);
    assert!(matches!(action, Action::Publish));
    let (state, action) = step(state, Event::Published);
    assert_eq!(state, Cycle::Finished);
    assert!(matches!(action, Action::Finish(Ok(()))));
}

#[test]
fn failed_load_ends_the_cycle() {
    let (state, action) = step(Cycle::Loading(red_at(3, 4)), Event::LoadFailed);
    assert_eq!(state, Cycle::Finished);
    assert!(matches!(action, Action::Finish(Err(UpdateError::LoadFailed))));
}

#[test]
fn failed_encode_ends_the_cycle_without_publishing() {
    let (state, action) = step(Cycle::Encoding, Event::EncodeFailed);
    assert_eq!(state, Cycle::Finished);
    assert!(matches!(action, Action::Finish(Err(UpdateError::EncodeFailed))));
}

#[test]
fn failed_rename_ends_the_cycle() {
    let (state, action) = step(Cycle::Publishing, Event::PublishFailed);
    assert_eq!(state, Cycle::Finished);
    assert!(matches!(action, Action::Finish(Err(UpdateError::PublishFailed))));
}

#[test]
fn loaded_canvas_smaller_than_declared_drops_the_command() {
    let (state, action) = step(Cycle::Loading(red_at(3, 4)), Event::Loaded(white(3, 10)));
    assert_eq!(state, Cycle::Finished);
    assert!(matches!(action, Action::Finish(Ok(()))));
}

#[test]
fn event_out_of_turn_is_ignored() {
    let (state, action) = step(Cycle::Loading(red_at(3, 4)), Event::Encoded);
    assert_eq!(state, Cycle::Loading(red_at(3, 4)));
    assert!(matches!(action, Action::Wait));
    let (state, action) = step(Cycle::Encoding, Event::Published);
    assert_eq!(state, Cycle::Encoding);
    assert!(matches!(action, Action::Wait));
    let (state, action) = step(Cycle::Publishing, Event::Loaded(white(1, 1)));
    assert_eq!(state, Cycle::Publishing);
    assert!(matches!(action, Action::Wait));
    let (state, action) = step(Cycle::Finished, Event::Encoded);
    assert_eq!(state, Cycle::Finished);
    assert!(matches!(action, Action::Wait));
}
