use powerflow::provider::{AdapterDetails, IORegistry, PowerTelemetry, SMCPowerData};
use powerflow::sender::{
    message_for, registry_stand_in, sanitize_interval, sanitize_interval_ms, status_bar_text, PowerUpdatedEvent,
    PreferenceEvent, SenderAction, SenderMessage, SenderState, StatusBarItem,
};

fn smc(charging: bool) -> SMCPowerData {
    SMCPowerData {
        charging,
        delivery_rate: 653,
        system_total: 124,
        brightness: 19,
        heatpipe: 3,
        time_to_empty_ms: -1,
        time_to_full_ms: -1,
    }
}

#[test]
fn interval_is_clamped() {
    assert_eq!(sanitize_interval_ms(0), 500);
    assert_eq!(sanitize_interval_ms(499), 500);
    assert_eq!(sanitize_interval_ms(500), 500);
    assert_eq!(sanitize_interval_ms(2000), 2000);
    assert_eq!(sanitize_interval_ms(60_000), 60_000);
    assert_eq!(sanitize_interval_ms(86_400_000), 60_000);
    assert_eq!(sanitize_interval(u64::MAX), 60_000);
    assert_eq!(sanitize_interval(sanitize_interval(10)), sanitize_interval(10));
}

#[test]
fn status_bar_reading_choice() {
    assert_eq!(status_bar_text(&smc(true), &StatusBarItem::Screen, true), 653);
    assert_eq!(status_bar_text(&smc(true), &StatusBarItem::Screen, false), 19);
    assert_eq!(status_bar_text(&smc(false), &StatusBarItem::System, true), 124);
    assert_eq!(status_bar_text(&smc(false), &StatusBarItem::Heatpipe, true), 3);
}

#[test]
fn title_has_one_decimal_and_unit() {
    assert_eq!(PowerUpdatedEvent::new(0).0, "0.0 w");
    assert_eq!(PowerUpdatedEvent::new(7).0, "0.7 w");
    assert_eq!(PowerUpdatedEvent::new(123).0, "12.3 w");
    assert_eq!(PowerUpdatedEvent::new(1000).0, "100.0 w");
    assert_eq!(PowerUpdatedEvent::new(-45).0, "-4.5 w");
    assert_eq!(PowerUpdatedEvent::new(-3).0, "-0.3 w");
    assert_eq!(PowerUpdatedEvent::new(i64::MIN).0, format!("{}.{} w", i64::MIN / 10, 8));
    assert_eq!(PowerUpdatedEvent::new(i64::MAX).0, format!("{}.{} w", i64::MAX / 10, 7));
}

#[test]
fn title_from_controller() {
    assert_eq!(PowerUpdatedEvent::new_with(&smc(true), &StatusBarItem::System, true).0, "65.3 w");
    assert_eq!(PowerUpdatedEvent::new_with(&smc(true), &StatusBarItem::System, false).0, "12.4 w");
}

#[test]
fn preferences_give_defaults() {
    let s = SenderState::from_preferences(None, None, None);
    assert_eq!(s.interval_ms, 2000);
    assert_eq!(s.status_bar_item, StatusBarItem::System);
    assert!(s.show_charging);
    let s = SenderState::from_preferences(Some(86_400_000), Some(StatusBarItem::Heatpipe), Some(false));
    assert_eq!(s.interval_ms, 60_000);
    assert_eq!(s.status_bar_item, StatusBarItem::Heatpipe);
    assert!(!s.show_charging);
}

#[test]
fn sender_reacts_to_messages() {
    let mut s = SenderState::from_preferences(None, None, None);
    assert_eq!(s.handle(SenderMessage::ImmediateSend), SenderAction::Sample);
    assert_eq!(s.handle(SenderMessage::ChangeInterval(100)), SenderAction::Reschedule(500));
    assert_eq!(s.interval_ms, 500);
    assert_eq!(
        s.handle(SenderMessage::ChangeStatusBarItem(StatusBarItem::Screen)),
        SenderAction::RefreshBar
    );
    assert_eq!(s.status_bar_item, StatusBarItem::Screen);
    assert_eq!(s.handle(SenderMessage::StatusBarShowCharging(false)), SenderAction::RefreshBar);
    assert!(!s.show_charging);
}

#[test]
fn sample_title_uses_normalised_charging_flag() {
    let s = SenderState::from_preferences(None, Some(StatusBarItem::Screen), None);
    // The controller says not charging, the normalised reading says charging.
    assert_eq!(s.sample_title(true, &smc(false)).0, "65.3 w");
    assert_eq!(s.sample_title(false, &smc(true)).0, "1.9 w");
    assert_eq!(s.controller_title(&smc(true)).0, "65.3 w");
    assert_eq!(s.controller_title(&smc(false)).0, "1.9 w");
}

#[test]
fn preference_events_map_to_messages() {
    assert_eq!(message_for(&PreferenceEvent::UpdateInterval(3000)), Some(SenderMessage::ChangeInterval(3000)));
    assert_eq!(
        message_for(&PreferenceEvent::StatusBarItem(StatusBarItem::Screen)),
        Some(SenderMessage::ChangeStatusBarItem(StatusBarItem::Screen))
    );
    assert_eq!(
        message_for(&PreferenceEvent::StatusBarShowCharging(false)),
        Some(SenderMessage::StatusBarShowCharging(false))
    );
    assert_eq!(message_for(&PreferenceEvent::Language("en".to_string())), None);
}

fn registry(telemetry: Option<PowerTelemetry>) -> IORegistry {
    IORegistry {
        is_charging: true,
        instant_amperage: 0,
        amperage: 0,
        time_remaining: 90,
        update_time: 1_700_000_000,
        cycle_count: 321,
        current_capacity: 80,
        max_capacity: 100,
        design_capacity: 5000,
        apple_raw_current_capacity: 4000,
        apple_raw_max_capacity: 4800,
        adapter_details: AdapterDetails { name: None, description: None },
        telemetry,
    }
}

#[test]
fn registry_stands_in_for_the_controller() {
    let io = registry(Some(PowerTelemetry {
        system_power_in: 12_345,
        system_load: 8_760,
        battery_power: 3_000,
        adapter_efficiency_loss: 500,
    }));
    let r = registry_stand_in(&io);
    assert!(r.charging);
    assert_eq!(r.delivery_rate, 123);
    assert_eq!(r.system_total, 87);
    assert_eq!(r.brightness, 0);
    assert_eq!(r.heatpipe, 0);
    assert_eq!(r.time_to_empty_ms, -1);
    assert_eq!(r.time_to_full_ms, -1);
    assert_eq!(status_bar_text(&r, &StatusBarItem::System, true), 123);
    assert_eq!(status_bar_text(&r, &StatusBarItem::System, false), 87);
    let mut io = registry(None);
    io.amperage = -5;
    let r = registry_stand_in(&io);
    assert!(!r.charging);
    assert_eq!(r.delivery_rate, 0);
    assert_eq!(r.system_total, 0);
}
