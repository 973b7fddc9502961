use dtdl_parser::provider_action::remove_topic;
use dtdl_parser::speedometer::{
    next_ambient_temperature, next_temperature, show_speed, signal_for_topic, Blink, LedCommand,
    VehicleSignal, COLOR_LEFT, COLOR_RIGHT,
};

const STILL: Blink = Blink { delay: 3, current: 0, color: 0 };

#[test]
fn standstill_shows_the_fast_colour() {
    assert_eq!(show_speed(0, 100, STILL), (LedCommand::AllLeds { color: COLOR_RIGHT }, STILL));
}

#[test]
fn low_speed_grows_a_gradient_from_the_left() {
    assert_eq!(show_speed(1, 100, STILL).0, LedCommand::Gradient { start: 0, end: 0 });
    assert_eq!(show_speed(25, 100, STILL).0, LedCommand::Gradient { start: 0, end: 15 });
    assert_eq!(show_speed(50, 100, STILL).0, LedCommand::Gradient { start: 0, end: 31 });
}

#[test]
fn high_speed_shrinks_the_gradient_to_the_right() {
    assert_eq!(show_speed(51, 100, STILL).0, LedCommand::Gradient { start: 0, end: 31 });
    assert_eq!(show_speed(75, 100, STILL).0, LedCommand::Gradient { start: 15, end: 31 });
    assert_eq!(show_speed(99, 100, STILL).0, LedCommand::Gradient { start: 30, end: 31 });
    assert_eq!(show_speed(100, 101, STILL).0, LedCommand::Gradient { start: 31, end: 31 });
}

#[test]
fn too_much_speed_blinks() {
    let mut blink = STILL;
    let mut colours = Vec::new();
    for _ in 0..10 {
        let (command, next) = show_speed(100, 100, blink);
        blink = next;
        match command {
            LedCommand::AllLeds { color } => colours.push(color),
            other => panic!("{other:?}"),
        }
    }
    assert_eq!(colours, vec![0, 0, 0, 0, COLOR_LEFT, COLOR_LEFT, COLOR_LEFT, COLOR_LEFT, 0, 0]);
    assert_eq!(blink, Blink { delay: 3, current: 2, color: 0 });
    assert_eq!(show_speed(5, -1, STILL).0, LedCommand::AllLeds { color: 0 });
    assert_eq!(show_speed(i32::MAX, 100, STILL).0, LedCommand::AllLeds { color: 0 });
    assert_eq!(show_speed(-1, -5, STILL).0, LedCommand::AllLeds { color: 0 });
    let full = Blink { delay: 3, current: u32::MAX, color: 0 };
    assert_eq!(
        show_speed(100, 100, full),
        (LedCommand::AllLeds { color: COLOR_LEFT }, Blink { delay: 3, current: 1, color: COLOR_LEFT })
    );
}

#[test]
fn topics_of_the_dashboard() {
    assert_eq!(signal_for_topic("dashboard/value/speed"), Some(VehicleSignal::Speed));
    assert_eq!(signal_for_topic("dashboard/value/mileage"), Some(VehicleSignal::Mileage));
    assert_eq!(signal_for_topic("dashboard/value/gear"), Some(VehicleSignal::Gear));
    assert_eq!(signal_for_topic("dashboard/value/gas-level"), Some(VehicleSignal::Fuel));
    assert_eq!(signal_for_topic("dashboard/value/tacho"), Some(VehicleSignal::Rpm));
    assert_eq!(
        signal_for_topic("dashboard/value/wheel-pressure-fl"),
        Some(VehicleSignal::WheelPressureFrontLeft)
    );
    assert_eq!(
        signal_for_topic("dashboard/value/wheel-pressure-fr"),
        Some(VehicleSignal::WheelPressureFrontRight)
    );
    assert_eq!(
        signal_for_topic("dashboard/value/wheel-pressure-rl"),
        Some(VehicleSignal::WheelPressureRearLeft)
    );
    assert_eq!(
        signal_for_topic("dashboard/value/wheel-pressure-rr"),
        Some(VehicleSignal::WheelPressureRearRight)
    );
    assert_eq!(signal_for_topic("dashboard/value/other"), None);
    assert_eq!(signal_for_topic(""), None);
}

#[test]
fn temperature_bounces_between_its_limits() {
    assert_eq!(next_temperature(75, true), (76, true));
    assert_eq!(next_temperature(85, true), (84, false));
    assert_eq!(next_temperature(84, false), (83, false));
    assert_eq!(next_temperature(65, false), (66, true));
    let (mut t, mut rising) = (75u32, true);
    let mut seen = Vec::new();
    for _ in 0..60 {
        let next = next_temperature(t, rising);
        t = next.0;
        rising = next.1;
        seen.push(t);
    }
    assert_eq!(*seen.iter().max().unwrap(), 85);
    assert_eq!(*seen.iter().min().unwrap(), 65);
}

#[test]
fn cabin_temperature_follows_the_air_conditioning() {
    assert_eq!(next_ambient_temperature(75, true), 74);
    assert_eq!(next_ambient_temperature(65, true), 65);
    assert_eq!(next_ambient_temperature(60, true), 60);
    assert_eq!(next_ambient_temperature(75, false), 76);
    assert_eq!(next_ambient_temperature(100, false), 100);
    assert_eq!(next_ambient_temperature(120, false), 120);
}

#[test]
fn removing_a_topic_puts_the_last_in_its_place() {
    let mut topics: Vec<String> = ["a", "b", "c", "d"].iter().map(|s| s.to_string()).collect();
    assert!(remove_topic(&mut topics, &"b".to_string()));
    assert_eq!(topics, vec!["a", "d", "c"]);
    assert!(!remove_topic(&mut topics, &"b".to_string()));
    assert_eq!(topics, vec!["a", "d", "c"]);
    assert!(remove_topic(&mut topics, &"c".to_string()));
    assert_eq!(topics, vec!["a", "d"]);
}
