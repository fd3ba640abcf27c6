use kaonic::plugins::install::{poll_running, HealthMove, HEALTH_TRIES};
use kaonic::radio::{
    module_or_usual, put_radio, save_radio_module, setup_steps, Accelerator, Antenna,
    BandwidthFilter, Modulation, OfdmModulation, RadioConfig, RadioModuleConfig, RadioStep,
    SetupMove,
};
use kaonic::reticulum::{
    build_ws_reticulum_snapshot, GatewayReticulum, InterfaceErrorKind, LinkEvent, LinkEventData,
};
use kaonic::system_metrics::{read_architecture, user_filesystem_probe_path};

fn module(freq_hz: u64) -> RadioModuleConfig {
    RadioModuleConfig {
        radio_config: RadioConfig {
            freq_hz,
            channel_spacing_hz: 200_000,
            channel: 3,
            bandwidth_filter: BandwidthFilter::Wide,
        },
        modulation: Modulation::Fsk,
        accelerator: Accelerator::Hardware,
        antenna: Antenna::External,
    }
}

fn failure(cfg: &RadioModuleConfig, done: usize) -> String {
    match save_radio_module(cfg, done, Some("timeout".to_string())) {
        SetupMove::Fail(message) => message,
        other => panic!("{other:?}"),
    }
}

#[test]
fn modules_are_set_up_step_by_step() {
    let low = module(869_535_000);
    let high = module(2_450_000_000);
    let first = save_radio_module(&low, 0, None);
    assert!(matches!(first, SetupMove::Apply(RadioStep::SetRadioConfig(c)) if c == low.radio_config));
    let second = save_radio_module(&low, 1, None);
    assert!(matches!(second, SetupMove::Apply(RadioStep::SetModulation(Modulation::Fsk))));
    let third = save_radio_module(&low, 2, None);
    assert!(matches!(
        third,
        SetupMove::Apply(RadioStep::SetAccelerator(Accelerator::Hardware))
    ));
    assert!(matches!(save_radio_module(&low, 3, None), SetupMove::Done));
    let fourth = save_radio_module(&high, 3, None);
    assert!(matches!(fourth, SetupMove::Apply(RadioStep::SetAntenna(Antenna::External))));
    assert!(matches!(save_radio_module(&high, 4, None), SetupMove::Done));
}

#[test]
fn filters_and_thresholds_reach_the_transceiver() {
    let mut low = module(869_535_000);
    low.modulation =
        Modulation::Ofdm(OfdmModulation { mcs: 2, opt: 1, pdt: 7, tx_power: 14 });
    let steps = setup_steps(&low);
    assert!(matches!(
        steps[0],
        RadioStep::SetRadioConfig(c) if c.bandwidth_filter == BandwidthFilter::Wide
    ));
    assert!(matches!(
        steps[1],
        RadioStep::SetModulation(Modulation::Ofdm(ofdm)) if ofdm.pdt == 7
    ));
}

#[test]
fn saved_modules_are_granted_whatever_the_transceiver_says() {
    let low = module(869_535_000);
    let high = module(2_450_000_000);
    let put = put_radio(&low, false, true);
    assert_eq!(put.status, 500);
    assert!(put.steps.is_empty());
    let put = put_radio(&low, true, false);
    assert_eq!(put.status, 204);
    assert!(put.steps.is_empty());
    let put = put_radio(&low, true, true);
    assert_eq!(put.status, 204);
    assert_eq!(
        put.steps,
        vec![
            RadioStep::SetRadioConfig(low.radio_config),
            RadioStep::SetModulation(Modulation::Fsk),
            RadioStep::SetAccelerator(Accelerator::Hardware),
        ]
    );
    let put = put_radio(&high, true, true);
    assert_eq!(put.status, 204);
    assert_eq!(put.steps.len(), 4);
    assert_eq!(put.steps[3], RadioStep::SetAntenna(Antenna::External));
}

#[test]
fn unread_parts_of_a_module_take_the_usual_values() {
    let usual = module(869_535_000);
    assert_eq!(module_or_usual(None, None, None, None, usual), usual);
    let stored = module(2_450_000_000).radio_config;
    let mixed = module_or_usual(Some(stored), None, Some(Accelerator::Native), None, usual);
    assert_eq!(mixed.radio_config, stored);
    assert_eq!(mixed.modulation, Modulation::Fsk);
    assert_eq!(mixed.accelerator, Accelerator::Native);
    assert_eq!(mixed.antenna, Antenna::External);
    let mixed = module_or_usual(None, Some(Modulation::Off), None, Some(Antenna::Internal), usual);
    assert_eq!(mixed.radio_config, usual.radio_config);
    assert_eq!(mixed.modulation, Modulation::Off);
    assert_eq!(mixed.antenna, Antenna::Internal);
}

#[test]
fn the_first_failing_step_ends_a_setup() {
    let high = module(2_450_000_000);
    assert_eq!(failure(&high, 0), "set_radio_config: timeout");
    assert_eq!(failure(&high, 1), "set_modulation: timeout");
    assert_eq!(failure(&high, 2), "set_accelerator: timeout");
    assert_eq!(failure(&high, 3), "set_antenna: timeout");
}

#[test]
fn services_have_ten_tries_to_come_up() {
    assert_eq!(poll_running(0, false), HealthMove::Ask);
    assert_eq!(poll_running(HEALTH_TRIES - 1, false), HealthMove::Ask);
    assert_eq!(poll_running(HEALTH_TRIES, false), HealthMove::GiveUp);
    assert_eq!(poll_running(HEALTH_TRIES, true), HealthMove::Running);
    assert_eq!(poll_running(1, true), HealthMove::Running);
    assert_eq!(HEALTH_TRIES, 10);
}

#[test]
fn the_architecture_falls_back() {
    assert_eq!(read_architecture(Some(" aarch64\n"), "arm"), "aarch64");
    assert_eq!(read_architecture(Some("  "), "arm"), "arm");
    assert_eq!(read_architecture(None, "x86_64"), "x86_64");
}

#[test]
fn the_home_directory_is_measured_first() {
    let home = || Some("/home/kaonic".to_string());
    let here = || Some("/srv".to_string());
    assert_eq!(user_filesystem_probe_path(home(), true, here()), "/home/kaonic");
    assert_eq!(user_filesystem_probe_path(home(), false, here()), "/srv");
    assert_eq!(user_filesystem_probe_path(None, true, here()), "/srv");
    assert_eq!(user_filesystem_probe_path(home(), false, None), "/");
}

#[test]
fn live_snapshots_leave_the_events_out() {
    let mut log = GatewayReticulum::new();
    log.record_interface_error(0, InterfaceErrorKind::TxTransmit, 4);
    let data = LinkEventData {
        id: "aa".to_string(),
        destination: "bb".to_string(),
        event: LinkEvent::Data(9),
    };
    log.handle_link_event(true, &data, &None, 5);
    let live = build_ws_reticulum_snapshot(log.snapshot());
    assert_eq!(live.interface_stats.tx_errors, 1);
    assert_eq!(live.interface_stats.tx_transmit_errors, 1);
    assert_eq!(live.incoming_links.len(), 1);
    assert_eq!(live.incoming_links[0].id, "aa");
    assert_eq!(live.incoming_links[0].bytes, 9);
    assert!(live.outgoing_links.is_empty());
}
