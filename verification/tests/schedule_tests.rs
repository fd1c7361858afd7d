use solana_validator_exporter::schedule::EpochScheduleParams;

fn mainnet() -> EpochScheduleParams {
    EpochScheduleParams {
        slots_per_epoch: 432_000,
        leader_schedule_slot_offset: 432_000,
        warmup: false,
        first_normal_epoch: 0,
        first_normal_slot: 0,
    }
}

fn warmup() -> EpochScheduleParams {
    EpochScheduleParams {
        slots_per_epoch: 8192,
        leader_schedule_slot_offset: 8192,
        warmup: true,
        first_normal_epoch: 8,
        first_normal_slot: 8160,
    }
}

#[test]
fn normal_schedule_epochs_are_fixed_length() {
    let s = mainnet();
    assert_eq!(s.epoch_of(0), 0);
    assert_eq!(s.epoch_of(431_999), 0);
    assert_eq!(s.epoch_of(432_000 * 5 + 7), 5);
    assert_eq!(s.first_slot_in_epoch(5), 2_160_000);
    assert_eq!(s.last_slot_in_epoch(5), 2_591_999);
}

#[test]
fn warmup_epochs_double() {
    let s = warmup();
    assert_eq!(s.first_slot_in_epoch(0), 0);
    assert_eq!(s.last_slot_in_epoch(0), 31);
    assert_eq!(s.first_slot_in_epoch(1), 32);
    assert_eq!(s.first_slot_in_epoch(2), 96);
    assert_eq!(s.epoch_of(31), 0);
    assert_eq!(s.epoch_of(32), 1);
    assert_eq!(s.epoch_of(95), 1);
    assert_eq!(s.epoch_of(96), 2);
    assert_eq!(s.epoch_of(8160), 8);
    assert_eq!(s.first_slot_in_epoch(9), 16_352);
    assert_eq!(s.last_slot_in_epoch(8), 16_351);
}

#[test]
fn warmup_epoch_boundaries() {
    let s = warmup();
    assert_eq!(s.epoch_of(223), 2);
    assert_eq!(s.epoch_of(224), 3);
    assert_eq!(s.epoch_of(8_159), 7);
}
