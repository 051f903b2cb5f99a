use ems_model::electricity::{ElectricityRate, HourRange, RateTier, WeekdayType};

fn price(value: f64) -> u64 {
    value.to_bits()
}

fn as_price(bits: u64) -> f64 {
    f64::from_bits(bits)
}

#[test]
fn test_fixed_rate() {
    let rate = ElectricityRate::fixed(price(0.12));
    match rate {
        ElectricityRate::Fixed { rate: r } => assert_eq!(as_price(r), 0.12),
        _ => panic!("Expected Fixed rate"),
    }
}

#[test]
fn test_tiered_rate() {
    let peak_tier = RateTier::new(
        "Peak".to_string(),
        price(0.25),
        vec![
            HourRange::new(9, 17, WeekdayType::Weekday),
            HourRange::new(10, 16, WeekdayType::Weekend),
        ],
    );

    let off_peak_tier = RateTier::new(
        "Off-Peak".to_string(),
        price(0.08),
        vec![
            HourRange::new(17, 9, WeekdayType::Weekday),
            HourRange::new(16, 10, WeekdayType::Weekend),
        ],
    );

    let rate = ElectricityRate::tiered(vec![peak_tier, off_peak_tier]);
    match rate {
        ElectricityRate::Tiered { tiers } => assert_eq!(tiers.len(), 2),
        _ => panic!("Expected Tiered rate"),
    }
}

#[test]
fn test_fixed_rate_weekly_conversion() {
    let rate = ElectricityRate::fixed(price(0.15));
    let weekly_rates = rate.to_weekly_hourly_rates();

    assert_eq!(weekly_rates.len(), 168);

    for &rate_value in &weekly_rates {
        assert_eq!(as_price(rate_value), 0.15);
    }
}

#[test]
fn test_fixed_rate_yearly_conversion() {
    let rate = ElectricityRate::fixed(price(0.15));
    let yearly_rates = rate.to_yearly_hourly_rates();

    assert_eq!(yearly_rates.len(), 8760);

    for &rate_value in &yearly_rates {
        assert_eq!(as_price(rate_value), 0.15);
    }
}

#[test]
fn test_tiered_rate_weekly_conversion() {
    let peak_tier = RateTier::new(
        "Peak".to_string(),
        price(0.25),
        vec![HourRange::new(9, 17, WeekdayType::Weekday)],
    );

    let off_peak_tier = RateTier::new(
        "Off-Peak".to_string(),
        price(0.08),
        vec![
            HourRange::new(17, 9, WeekdayType::Weekday),
            HourRange::new(0, 24, WeekdayType::Weekend),
        ],
    );

    let rate = ElectricityRate::tiered(vec![peak_tier, off_peak_tier]);
    let weekly_rates = rate.to_weekly_hourly_rates();

    assert_eq!(weekly_rates.len(), 168);

    for day in 0..5 {
        for hour in 0..24 {
            let index = day * 24 + hour;
            if hour >= 9 && hour < 17 {
                assert_eq!(as_price(weekly_rates[index]), 0.25);
            } else {
                assert_eq!(as_price(weekly_rates[index]), 0.08);
            }
        }
    }

    for day in 5..7 {
        for hour in 0..24 {
            let index = day * 24 + hour;
            assert_eq!(as_price(weekly_rates[index]), 0.08);
        }
    }
}

#[test]
fn test_hour_range_matching() {
    let range = HourRange::new(9, 17, WeekdayType::Weekday);

    for hour in 9..17 {
        assert!(range.matches_hour(hour, WeekdayType::Weekday));
    }

    for hour in 0..9 {
        assert!(!range.matches_hour(hour, WeekdayType::Weekday));
    }
    for hour in 17..24 {
        assert!(!range.matches_hour(hour, WeekdayType::Weekday));
    }

    assert!(!range.matches_hour(10, WeekdayType::Weekend));
}

#[test]
fn test_wrapping_hour_range() {
    let range = HourRange::new(22, 6, WeekdayType::Weekday);

    for hour in 22..24 {
        assert!(range.matches_hour(hour, WeekdayType::Weekday));
    }
    for hour in 0..6 {
        assert!(range.matches_hour(hour, WeekdayType::Weekday));
    }

    for hour in 6..22 {
        assert!(!range.matches_hour(hour, WeekdayType::Weekday));
    }
}

#[test]
fn test_weekday_type_determination() {
    let rate = ElectricityRate::fixed(price(0.1));

    let weekday_type = rate.get_weekday_type_for_day_of_year(0);
    assert_eq!(weekday_type, WeekdayType::Weekday);

    let weekday_type = rate.get_weekday_type_for_day_of_year(4);
    assert_eq!(weekday_type, WeekdayType::Weekday);

    let weekday_type = rate.get_weekday_type_for_day_of_year(5);
    assert_eq!(weekday_type, WeekdayType::Weekend);

    let weekday_type = rate.get_weekday_type_for_day_of_year(6);
    assert_eq!(weekday_type, WeekdayType::Weekend);

    let weekday_type = rate.get_weekday_type_for_day_of_year(7);
    assert_eq!(weekday_type, WeekdayType::Weekday);
}

#[test]
fn test_fixed_rate_is_valid() {
    let rate = ElectricityRate::fixed(price(0.12));
    assert!(rate.is_valid());
}

#[test]
fn test_valid_tiered_rate() {
    let peak_tier = RateTier::new(
        "Peak".to_string(),
        price(0.25),
        vec![HourRange::new(9, 17, WeekdayType::Weekday)],
    );

    let off_peak_tier = RateTier::new(
        "Off-Peak".to_string(),
        price(0.08),
        vec![
            HourRange::new(17, 9, WeekdayType::Weekday),
            HourRange::new(0, 24, WeekdayType::Weekend),
        ],
    );

    let rate = ElectricityRate::tiered(vec![peak_tier, off_peak_tier]);
    assert!(rate.is_valid());
}

#[test]
fn test_invalid_tiered_rate_missing_weekday_hours() {
    let peak_tier = RateTier::new(
        "Peak".to_string(),
        price(0.25),
        vec![HourRange::new(9, 17, WeekdayType::Weekday)],
    );

    let rate = ElectricityRate::tiered(vec![peak_tier]);
    assert!(!rate.is_valid());
}

#[test]
fn test_invalid_tiered_rate_missing_weekend_hours() {
    let peak_tier = RateTier::new(
        "Peak".to_string(),
        price(0.25),
        vec![HourRange::new(9, 17, WeekdayType::Weekend)],
    );

    let rate = ElectricityRate::tiered(vec![peak_tier]);
    assert!(!rate.is_valid());
}

#[test]
fn test_invalid_tiered_rate_overlapping_hours() {
    let peak_tier = RateTier::new(
        "Peak".to_string(),
        price(0.25),
        vec![HourRange::new(9, 17, WeekdayType::Weekday)],
    );

    let off_peak_tier = RateTier::new(
        "Off-Peak".to_string(),
        price(0.08),
        vec![HourRange::new(15, 20, WeekdayType::Weekday)],
    );

    let rate = ElectricityRate::tiered(vec![peak_tier, off_peak_tier]);
    assert!(!rate.is_valid());
}

#[test]
fn test_valid_tiered_rate_with_wrapping_ranges() {
    let peak_tier = RateTier::new(
        "Peak".to_string(),
        price(0.25),
        vec![
            HourRange::new(9, 17, WeekdayType::Weekday),
            HourRange::new(10, 16, WeekdayType::Weekend),
        ],
    );

    let off_peak_tier = RateTier::new(
        "Off-Peak".to_string(),
        price(0.08),
        vec![
            HourRange::new(17, 9, WeekdayType::Weekday),
            HourRange::new(16, 10, WeekdayType::Weekend),
        ],
    );

    let rate = ElectricityRate::tiered(vec![peak_tier, off_peak_tier]);
    assert!(rate.is_valid());
}

#[test]
fn test_invalid_tiered_rate_wrapping_overlap() {
    let peak_tier = RateTier::new(
        "Peak".to_string(),
        price(0.25),
        vec![HourRange::new(22, 6, WeekdayType::Weekday)],
    );

    let off_peak_tier = RateTier::new(
        "Off-Peak".to_string(),
        price(0.08),
        vec![HourRange::new(4, 8, WeekdayType::Weekday)],
    );

    let rate = ElectricityRate::tiered(vec![peak_tier, off_peak_tier]);
    assert!(!rate.is_valid());
}

#[test]
fn test_valid_tiered_rate_separate_weekday_weekend() {
    let weekday_peak = RateTier::new(
        "Weekday Peak".to_string(),
        price(0.25),
        vec![HourRange::new(9, 17, WeekdayType::Weekday)],
    );

    let weekday_off_peak = RateTier::new(
        "Weekday Off-Peak".to_string(),
        price(0.08),
        vec![HourRange::new(17, 9, WeekdayType::Weekday)],
    );

    let weekend_rate = RateTier::new(
        "Weekend Rate".to_string(),
        price(0.12),
        vec![HourRange::new(0, 24, WeekdayType::Weekend)],
    );

    let rate = ElectricityRate::tiered(vec![weekday_peak, weekday_off_peak, weekend_rate]);
    assert!(rate.is_valid());
}

#[test]
fn unmatched_hour_is_priced_zero() {
    let peak_tier = RateTier::new(
        "Peak".to_string(),
        7,
        vec![HourRange::new(9, 17, WeekdayType::Weekday)],
    );
    let rate = ElectricityRate::tiered(vec![peak_tier]);
    assert_eq!(rate.get_rate_for_hour(9, WeekdayType::Weekday), 7);
    assert_eq!(rate.get_rate_for_hour(16, WeekdayType::Weekday), 7);
    assert_eq!(rate.get_rate_for_hour(17, WeekdayType::Weekday), 0);
    assert_eq!(rate.get_rate_for_hour(9, WeekdayType::Weekend), 0);
}

#[test]
fn first_matching_tier_sets_the_price() {
    let first = RateTier::new(
        "First".to_string(),
        3,
        vec![HourRange::new(0, 12, WeekdayType::Weekday)],
    );
    let second = RateTier::new(
        "Second".to_string(),
        5,
        vec![HourRange::new(6, 24, WeekdayType::Weekday)],
    );
    let rate = ElectricityRate::tiered(vec![first, second]);
    assert_eq!(rate.get_rate_for_hour(8, WeekdayType::Weekday), 3);
    assert_eq!(rate.get_rate_for_hour(20, WeekdayType::Weekday), 5);
    assert!(!rate.is_valid());
}

#[test]
fn range_past_the_last_hour_counts_to_midnight() {
    let all_day = RateTier::new(
        "All".to_string(),
        1,
        vec![
            HourRange::new(0, 30, WeekdayType::Weekday),
            HourRange::new(0, 24, WeekdayType::Weekend),
        ],
    );
    assert!(ElectricityRate::tiered(vec![all_day]).is_valid());
}

#[test]
fn empty_range_covers_nothing() {
    let range = HourRange::new(5, 5, WeekdayType::Weekend);
    for hour in 0..24 {
        assert!(!range.matches_hour(hour, WeekdayType::Weekend));
    }
    assert!(!ElectricityRate::tiered(Vec::new()).is_valid());
}

#[test]
fn yearly_rates_follow_the_week() {
    let weekday = RateTier::new(
        "Weekday".to_string(),
        10,
        vec![HourRange::new(0, 24, WeekdayType::Weekday)],
    );
    let weekend = RateTier::new(
        "Weekend".to_string(),
        20,
        vec![HourRange::new(0, 24, WeekdayType::Weekend)],
    );
    let rate = ElectricityRate::tiered(vec![weekday, weekend]);
    let yearly = rate.to_yearly_hourly_rates();
    assert_eq!(yearly.len(), 8760);
    assert_eq!(yearly[0], 10);
    assert_eq!(yearly[4 * 24 + 23], 10);
    assert_eq!(yearly[5 * 24], 20);
    assert_eq!(yearly[6 * 24 + 23], 20);
    assert_eq!(yearly[7 * 24], 10);
    assert_eq!(yearly[364 * 24 + 23], 10);
}
