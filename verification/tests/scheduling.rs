use uptime_monitor::config::{Config, ConfigError};
use uptime_monitor::greeting;
use uptime_monitor::schedule::{self_ping_cadence, wait_millis, Cadence, ScheduleError, TickPlan};

#[test]
fn greeting_is_fixed() {
    assert_eq!(greeting(), "Hello, world!");
}

#[test]
fn wait_is_never_negative() {
    // A fire time at or before now means firing immediately, not stalling.
    assert_eq!(wait_millis(1_000, 1_000), 0);
    assert_eq!(wait_millis(999, 1_000), 0);
    assert_eq!(wait_millis(-5_000, 1_000), 0);
    assert_eq!(wait_millis(1_500, 1_000), 500);
    assert_eq!(wait_millis(1_000, -1_000), 2_000);
}

#[test]
fn cadence_rejects_malformed_expression() {
    assert_eq!(Cadence::parse("not a cron line").err(), Some(ScheduleError::ScheduleInvalid));
    assert_eq!(Cadence::parse("").err(), Some(ScheduleError::ScheduleInvalid));
    assert!(Cadence::parse("0 * * * * *").is_ok());
}

#[test]
fn plan_tick_waits_until_next_fire() {
    // Fires at second 0 of every minute; 10 s past the epoch the next fire is
    // at 60 s, so the plan is to sleep the exact 50 s distance.
    let cadence = Cadence::parse("0 * * * * *").unwrap();
    assert_eq!(cadence.plan_tick(10_000), TickPlan::FireAfter(50_000));
    // From a fire time itself, the next fire is a full period away.
    assert_eq!(cadence.plan_tick(60_000), TickPlan::FireAfter(60_000));
}

#[test]
fn plan_tick_halts_on_exhausted_schedule() {
    // A schedule whose only year lies in the past holds no further fire time.
    let cadence = Cadence::parse("0 0 0 1 1 * 1980").unwrap();
    assert_eq!(cadence.plan_tick(10_000_000_000_000), TickPlan::Halt);
    // Before that year it still fires: from the epoch, the wait runs to
    // 1980-01-01T00:00:00Z exactly.
    assert_eq!(cadence.plan_tick(0), TickPlan::FireAfter(315_532_800_000));
}

#[test]
fn self_ping_fires_once_a_minute() {
    let cadence = self_ping_cadence().unwrap_or_else(|_| panic!("fixed cadence must parse"));
    assert_eq!(cadence.plan_tick(0), TickPlan::FireAfter(24_000));
    assert_eq!(cadence.plan_tick(24_000), TickPlan::FireAfter(60_000));
}

#[test]
fn config_needs_every_value() {
    let full = Config::from_parts(
        Some(String::from("http://hook.example")),
        Some(String::from("42")),
        Some(String::from("/tmp/sites")),
        Some(String::from("0 * * * * *")),
        Some(String::from("http://self.example")),
    );
    let config = full.unwrap_or_else(|_| panic!("complete configuration must pass"));
    assert_eq!(config.alert_endpoint, "http://hook.example");
    assert_eq!(config.chat_id, "42");
    assert_eq!(config.site_list_path, "/tmp/sites");
    assert_eq!(config.schedule_expr, "0 * * * * *");
    assert_eq!(config.self_host, "http://self.example");
}

#[test]
fn config_names_first_missing_value() {
    assert_eq!(
        Config::from_parts(None, None, None, None, None).err(),
        Some(ConfigError::MissingAlertEndpoint)
    );
    assert_eq!(
        Config::from_parts(Some(String::from("h")), None, None, None, None).err(),
        Some(ConfigError::MissingChatId)
    );
    assert_eq!(
        Config::from_parts(Some(String::from("h")), Some(String::from("c")), None, None, None)
            .err(),
        Some(ConfigError::MissingSiteListPath)
    );
    assert_eq!(
        Config::from_parts(
            Some(String::from("h")),
            Some(String::from("c")),
            Some(String::from("f")),
            None,
            None
        )
        .err(),
        Some(ConfigError::MissingScheduleExpr)
    );
    assert_eq!(
        Config::from_parts(
            Some(String::from("h")),
            Some(String::from("c")),
            Some(String::from("f")),
            Some(String::from("e")),
            None
        )
        .err(),
        Some(ConfigError::MissingSelfHost)
    );
}
