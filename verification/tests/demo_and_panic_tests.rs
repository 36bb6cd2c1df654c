use ef_os::demo::{demo_step, DemoStep};
use ef_os::panic_screen::{panic_action, PanicAction};

#[test]
fn demo_step_picks_fizz_buzz_or_number() {
    assert_eq!(demo_step(0), DemoStep::Fizz);
    assert_eq!(demo_step(3), DemoStep::Fizz);
    assert_eq!(demo_step(15), DemoStep::Fizz);
    assert_eq!(demo_step(5), DemoStep::Buzz);
    assert_eq!(demo_step(10), DemoStep::Buzz);
    assert_eq!(demo_step(7), DemoStep::Number(7));
    assert_eq!(demo_step(-9), DemoStep::Fizz);
    assert_eq!(demo_step(-10), DemoStep::Buzz);
    assert_eq!(demo_step(-1), DemoStep::Number(-1));
}

#[test]
fn first_panic_prints_the_banner() {
    let (next, action) = panic_action(0, Some("boom"));
    assert_eq!(next, 1);
    assert!(matches!(action, PanicAction::Banner));
}

#[test]
fn panics_after_the_second_show_nothing() {
    let (next, action) = panic_action(3, Some("boom"));
    assert_eq!(next, 4);
    assert!(matches!(action, PanicAction::Silent));
}

fn raw(count: usize, message: Option<&str>) -> Vec<u8> {
    match panic_action(count, message) {
        (n, PanicAction::RawScreen(b)) => {
            assert_eq!(n, count + 1);
            b
        }
        _ => panic!("expected a raw screen"),
    }
}

fn banner() -> Vec<u8> {
    let mut b = vec![b'#'; 80];
    b.extend(vec![b' '; 33]);
    b.extend(b"KERNEL PANICED".iter());
    b.extend(vec![b' '; 33]);
    b.extend(vec![b'#'; 80]);
    b
}

#[test]
fn second_panic_writes_banner_clear_and_message() {
    let b = raw(1, Some("oops"));
    assert_eq!(b.len(), 3840);
    let banner = banner();
    for i in 0..240 {
        assert_eq!(b[2 * i], banner[i]);
        assert_eq!(b[2 * i + 1], 0x4f);
    }
    assert_eq!(&b[480..488], &[b'o', 0x0f, b'o', 0x0f, b'p', 0x0f, b's', 0x0f]);
    assert!(b[488..].iter().all(|&x| x == 0));
}

#[test]
fn third_panic_writes_no_message() {
    let b = raw(2, Some("oops"));
    assert_eq!(b.len(), 3840);
    assert_eq!(b[226], b'K');
    assert_eq!(b[227], 0x4f);
    assert!(b[480..].iter().all(|&x| x == 0));
}

#[test]
fn second_panic_without_message_only_clears() {
    let b = raw(1, None);
    assert_eq!(b.len(), 3840);
    assert!(b[480..].iter().all(|&x| x == 0));
}

#[test]
fn long_message_runs_past_the_screen() {
    let msg = "x".repeat(1700);
    let b = raw(1, Some(&msg));
    assert_eq!(b.len(), 2 * (240 + 1700));
    assert_eq!(b[2 * 1939], b'x');
    assert_eq!(b[2 * 1939 + 1], 0x0f);
}
