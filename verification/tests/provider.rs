use powerflow::provider::{
    absolute_battery_level, adapter_name, is_charging_local, is_charging_registry, local_status,
    local_status_without_controller, remote_status,
    time_remain_from, time_remain_iokit, AdapterDetails, BatteryLevelBasis, IORegistry, PowerTelemetry,
    InterfaceType, MergedPowerData, PowerDataFrom, SMCPowerData,
};

fn registry() -> IORegistry {
    IORegistry {
        is_charging: false,
        instant_amperage: 0,
        amperage: 0,
        time_remaining: 90,
        update_time: 1_700_000_000,
        cycle_count: 321,
        current_capacity: 80,
        max_capacity: 100,
        design_capacity: 5000,
        apple_raw_current_capacity: 4000,
        apple_raw_max_capacity: 4800,
        adapter_details: AdapterDetails {
            name: Some("96W USB-C".to_string()),
            description: Some("pd charger".to_string()),
        },
        telemetry: Some(PowerTelemetry {
            system_power_in: 12_345,
            system_load: 8_760,
            battery_power: 3_000,
            adapter_efficiency_loss: 500,
        }),
    }
}

fn controller() -> SMCPowerData {
    SMCPowerData {
        charging: false,
        delivery_rate: 305,
        system_total: 123,
        brightness: 21,
        heatpipe: 4,
        time_to_empty_ms: 600_000,
        time_to_full_ms: -1,
    }
}

#[test]
fn iokit_time_accepts_plausible_minutes() {
    assert_eq!(time_remain_iokit(1), Some(60_000));
    assert_eq!(time_remain_iokit(90), Some(5_400_000));
    assert_eq!(time_remain_iokit(1440), Some(86_400_000));
}

#[test]
fn iokit_time_rejects_sentinels_and_magnitudes() {
    assert_eq!(time_remain_iokit(-1), None);
    assert_eq!(time_remain_iokit(65535), None);
    assert_eq!(time_remain_iokit(0), None);
    assert_eq!(time_remain_iokit(1441), None);
    assert_eq!(time_remain_iokit(i32::MIN), None);
}

#[test]
fn charging_follows_instant_amperage_first() {
    let mut io = registry();
    let mut smc = controller();
    smc.charging = true;
    io.is_charging = true;
    io.instant_amperage = -500;
    io.amperage = 700;
    assert!(!is_charging_local(&io, &smc));
    io.instant_amperage = 300;
    io.amperage = -700;
    assert!(is_charging_local(&io, &smc));
}

#[test]
fn charging_falls_back_to_amperage_then_flags() {
    let mut io = registry();
    let mut smc = controller();
    io.amperage = -20;
    io.is_charging = true;
    assert!(!is_charging_local(&io, &smc));
    io.amperage = 0;
    assert!(is_charging_local(&io, &smc));
    io.is_charging = false;
    assert!(!is_charging_local(&io, &smc));
    smc.charging = true;
    assert!(is_charging_local(&io, &smc));
}

#[test]
fn remaining_time_prefers_registry() {
    let io = registry();
    let smc = controller();
    assert_eq!(time_remain_from(&io, &smc), 5_400_000);
}

#[test]
fn remaining_time_falls_back_to_controller() {
    let mut io = registry();
    io.time_remaining = 65535;
    let mut smc = controller();
    assert_eq!(time_remain_from(&io, &smc), 600_000);
    smc.time_to_empty_ms = 86_400_000;
    smc.time_to_full_ms = 1_200_000;
    assert_eq!(time_remain_from(&io, &smc), 1_200_000);
    smc.time_to_full_ms = 0;
    assert_eq!(time_remain_from(&io, &smc), 0);
}

#[test]
fn battery_level_basis_prefers_raw_capacities() {
    let mut io = registry();
    assert_eq!(
        absolute_battery_level(&io),
        BatteryLevelBasis::RawRatio { current: 4000, max: 4800 }
    );
    io.apple_raw_max_capacity = 0;
    assert_eq!(absolute_battery_level(&io), BatteryLevelBasis::Ratio { current: 80, max: 100 });
    io.max_capacity = 0;
    io.current_capacity = 57;
    assert_eq!(absolute_battery_level(&io), BatteryLevelBasis::Zero);
}

#[test]
fn adapter_name_falls_back_to_description() {
    let mut details = registry().adapter_details;
    assert_eq!(adapter_name(&details).as_deref(), Some("96W USB-C"));
    details.name = None;
    assert_eq!(adapter_name(&details).as_deref(), Some("pd charger"));
    details.description = None;
    assert_eq!(adapter_name(&details), None);
}

#[test]
fn remote_status_takes_registry_fields() {
    let mut io = registry();
    io.is_charging = true;
    io.instant_amperage = -100;
    let r = remote_status(&io);
    assert!(!r.is_local);
    assert!(r.is_charging);
    assert_eq!(r.time_remain_ms, 5_400_000);
    assert_eq!(r.last_update, 1_700_000_000);
    assert_eq!(r.cycle_count, 321);
    assert_eq!(r.current_capacity, 4000);
    assert_eq!(r.max_capacity, 4800);
    assert_eq!(r.design_capacity, 5000);
    assert_eq!(r.battery_level, 80);
    assert_eq!(r.adapter_name.as_deref(), Some("96W USB-C"));
    io.time_remaining = -1;
    assert_eq!(remote_status(&io).time_remain_ms, 0);
}

#[test]
fn local_status_merges_controller() {
    let mut io = registry();
    io.time_remaining = -1;
    io.instant_amperage = 50;
    let smc = controller();
    let r = local_status(&io, &smc);
    assert!(r.is_local);
    assert!(r.is_charging);
    assert_eq!(r.time_remain_ms, 600_000);
    assert_eq!(r.absolute_battery_level, BatteryLevelBasis::RawRatio { current: 4000, max: 4800 });
}

#[test]
fn merged_data_exposes_registry() {
    let merged = MergedPowerData {
        from: PowerDataFrom::Remote(("abc".to_string(), "Phone".to_string(), InterfaceType::USB)),
        smc: None,
        ioreg: registry(),
    };
    assert_eq!(merged.ioreg().cycle_count, 321);
    assert!(matches!(PowerDataFrom::default(), PowerDataFrom::Local));
}

#[test]
fn registry_alone_normalises_the_mac() {
    let mut io = registry();
    io.is_charging = true;
    let r = local_status_without_controller(&io);
    assert!(r.is_local);
    assert!(r.is_charging);
    assert_eq!(r.time_remain_ms, 5_400_000);
    assert_eq!(r.battery_level, 80);
    io.amperage = -10;
    io.time_remaining = 65535;
    let r = local_status_without_controller(&io);
    assert!(!r.is_charging);
    assert_eq!(r.time_remain_ms, 0);
    assert!(!is_charging_registry(&io));
}
