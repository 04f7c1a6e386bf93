//! Counters, a processor's ten of them, and the difference of two readings.

use tach::stat::{
    percentage, ArithmeticUnderflow, CpuTime, Entry, EntryParseError, IntParseError, Measurement,
    UserHz,
};

fn time(counters: [u64; 10]) -> CpuTime {
    CpuTime::from_array(counters.map(UserHz))
}

#[test]
fn counter_is_read_from_digits() {
    assert_eq!("0".parse::<UserHz>(), Ok(UserHz(0)));
    assert_eq!("46828483".parse::<UserHz>(), Ok(UserHz(46828483)));
    assert_eq!("007".parse::<UserHz>(), Ok(UserHz(7)));
    assert_eq!("+12".parse::<UserHz>(), Ok(UserHz(12)));
    assert_eq!(
        "18446744073709551615".parse::<UserHz>(),
        Ok(UserHz(u64::MAX))
    );
}

#[test]
fn counter_that_is_no_number_is_refused() {
    assert_eq!("".parse::<UserHz>(), Err(IntParseError::Empty));
    assert_eq!("+".parse::<UserHz>(), Err(IntParseError::InvalidDigit));
    assert_eq!("-".parse::<UserHz>(), Err(IntParseError::InvalidDigit));
    assert_eq!("-1".parse::<UserHz>(), Err(IntParseError::InvalidDigit));
    assert_eq!("12a".parse::<UserHz>(), Err(IntParseError::InvalidDigit));
    assert_eq!("1_000".parse::<UserHz>(), Err(IntParseError::InvalidDigit));
    assert_eq!("++1".parse::<UserHz>(), Err(IntParseError::InvalidDigit));
    assert_eq!(
        "18446744073709551616".parse::<UserHz>(),
        Err(IntParseError::PosOverflow)
    );
}

#[test]
fn first_thing_wrong_with_a_number_decides() {
    // the number is too large before the letter is reached.
    assert_eq!(
        "99999999999999999999999x".parse::<UserHz>(),
        Err(IntParseError::PosOverflow)
    );
    // the letter is reached before the number is too large.
    assert_eq!(
        "9x99999999999999999999999".parse::<UserHz>(),
        Err(IntParseError::InvalidDigit)
    );
}

#[test]
fn counters_add_up() {
    assert_eq!(UserHz(2) + UserHz(3), UserHz(5));
    assert_eq!((UserHz(2) + UserHz(3)).ticks(), 5);
}

#[test]
fn counters_do_not_go_below_zero() {
    assert_eq!(UserHz(5).checked_sub(UserHz(3)), Ok(UserHz(2)));
    assert_eq!(UserHz(5).checked_sub(UserHz(5)), Ok(UserHz(0)));
    assert_eq!(UserHz(3).checked_sub(UserHz(5)), Err(ArithmeticUnderflow));
}

#[test]
fn line_of_all_processors_keeps_its_counters_in_order() {
    let entry = "cpu 10132153 290696 3084719 46828483 16683 0 25195 0 175628 0"
        .parse::<Entry>()
        .unwrap();
    match entry {
        Entry::AllCpu { time } => {
            assert_eq!(
                time.into_array(),
                [10132153, 290696, 3084719, 46828483, 16683, 0, 25195, 0, 175628, 0]
                    .map(UserHz)
            );
        }
        _other => panic!(),
    }
}

#[test]
fn ten_counters_round_trip() {
    let counters = [1, 2, 3, 4, 5, 6, 7, 8, 9, 10].map(UserHz);
    assert_eq!(CpuTime::from_array(counters).into_array(), counters);
    assert_eq!(
        CpuTime::try_from(counters.to_vec()).unwrap().into_array(),
        counters
    );
}

#[test]
fn fewer_or_more_than_ten_counters_are_refused() {
    assert_eq!(CpuTime::try_from(vec![]), Err(EntryParseError::CpuTime));
    assert_eq!(
        CpuTime::try_from(vec![UserHz(1); 9]),
        Err(EntryParseError::CpuTime)
    );
    assert_eq!(
        CpuTime::try_from(vec![UserHz(1); 11]),
        Err(EntryParseError::CpuTime)
    );
    assert!(CpuTime::try_from(vec![UserHz(1); 10]).is_ok());
}

#[test]
fn ten_counters_are_read_whatever_their_sum() {
    let entry = "cpu 18446744073709551615 1 0 0 0 0 0 0 0 0"
        .parse::<Entry>()
        .unwrap();
    match entry {
        Entry::AllCpu { time } => {
            assert_eq!(
                time.into_array(),
                [u64::MAX, 1, 0, 0, 0, 0, 0, 0, 0, 0].map(UserHz)
            );
            assert_eq!(time.checked_total(), None);
            assert_eq!(time.checked_active(), None);
        }
        _other => panic!(),
    }
    let all = "cpu 18446744073709551615 18446744073709551615 18446744073709551615 \
               18446744073709551615 18446744073709551615 18446744073709551615 \
               18446744073709551615 18446744073709551615 18446744073709551615 \
               18446744073709551615";
    assert!(matches!(all.parse::<Entry>(), Ok(Entry::AllCpu { .. })));
    assert!(CpuTime::try_from(vec![UserHz(u64::MAX); 10]).is_ok());
}

#[test]
fn sums_that_fit_are_told_and_others_are_not() {
    let fits = time([u64::MAX - 9, 1, 1, 1, 1, 1, 1, 1, 1, 1]);
    assert_eq!(fits.checked_total(), Some(UserHz(u64::MAX)));
    assert_eq!(fits.total(), UserHz(u64::MAX));
    assert_eq!(fits.checked_active(), Some(UserHz(u64::MAX - 1)));
    let idle_only = time([1, 0, 0, u64::MAX, 0, 0, 0, 0, 0, 0]);
    assert_eq!(idle_only.checked_total(), None);
    assert_eq!(idle_only.checked_active(), Some(UserHz(1)));
    assert_eq!(idle_only.active(), UserHz(1));
    let m = Measurement::new(time([0; 10]), idle_only).unwrap();
    assert_eq!(m.checked_total(), None);
    assert_eq!(m.checked_active(), Some(UserHz(1)));
    assert_eq!(m.percentage(), 0);
}

#[test]
fn small_differences_of_huge_counters_are_measured() {
    let a = time([u64::MAX - 10; 10]);
    let b = time([
        u64::MAX - 9,
        u64::MAX - 10,
        u64::MAX - 10,
        u64::MAX - 3,
        u64::MAX - 10,
        u64::MAX - 10,
        u64::MAX - 10,
        u64::MAX - 10,
        u64::MAX - 10,
        u64::MAX - 10,
    ]);
    let m = Measurement::new(a, b).unwrap();
    assert_eq!(m.into_array(), [1, 0, 0, 7, 0, 0, 0, 0, 0, 0].map(UserHz));
    assert_eq!(m.total(), UserHz(8));
    assert_eq!(m.percentage(), 13);
    let all = Measurement::new(time([0; 10]), time([u64::MAX; 10])).unwrap();
    assert_eq!(all.percentage(), 90);
}

#[test]
fn active_leaves_idle_out() {
    let time = time([1, 2, 3, 1000, 5, 6, 7, 8, 9, 10]);
    assert_eq!(time.active(), UserHz(51));
    assert_eq!(time.total(), UserHz(1051));
}

#[test]
fn measurement_is_the_difference_of_each_counter() {
    let a = time([1, 2, 3, 4, 5, 6, 7, 8, 9, 10]);
    let b = time([2, 4, 6, 8, 10, 12, 14, 16, 18, 20]);
    let m = Measurement::new(a, b).unwrap();
    assert_eq!(
        m.into_array(),
        [1, 2, 3, 4, 5, 6, 7, 8, 9, 10].map(UserHz)
    );
    assert_eq!(m.total(), UserHz(55));
    assert_eq!(m.active(), UserHz(51));
    assert_eq!(m.active().ticks() + 4, m.total().ticks());
}

#[test]
fn measurement_of_a_counter_that_ran_backwards_is_refused() {
    let a = time([1, 2, 3, 4, 5, 6, 7, 8, 9, 10]);
    let b = time([2, 4, 6, 8, 10, 12, 14, 16, 18, 9]);
    assert_eq!(Measurement::new(a, b), Err(ArithmeticUnderflow));
    assert!(Measurement::new(a, a).is_ok());
}

#[test]
fn percentage_rounds_to_the_nearest_and_halves_up() {
    // one eighth is 12.5%.
    let m = Measurement::new(time([0; 10]), time([1, 0, 0, 7, 0, 0, 0, 0, 0, 0])).unwrap();
    assert_eq!(m.percentage(), 13);
    // three eighths is 37.5%.
    let m = Measurement::new(time([0; 10]), time([1, 1, 1, 5, 0, 0, 0, 0, 0, 0])).unwrap();
    assert_eq!(m.percentage(), 38);
    assert_eq!(percentage(UserHz(1), UserHz(200)), 1);
    assert_eq!(percentage(UserHz(1), UserHz(201)), 0);
    assert_eq!(percentage(UserHz(1), UserHz(3)), 33);
    assert_eq!(percentage(UserHz(2), UserHz(3)), 67);
    assert_eq!(percentage(UserHz(199), UserHz(200)), 100);
    assert_eq!(percentage(UserHz(994), UserHz(1000)), 99);
}

#[test]
fn percentage_goes_from_none_to_all() {
    let idle = Measurement::new(time([0; 10]), time([0, 0, 0, 9, 0, 0, 0, 0, 0, 0])).unwrap();
    assert_eq!(idle.percentage(), 0);
    let busy = Measurement::new(time([0; 10]), time([9, 0, 0, 0, 0, 0, 0, 0, 0, 0])).unwrap();
    assert_eq!(busy.percentage(), 100);
    assert_eq!(
        percentage(UserHz(u64::MAX), UserHz(u64::MAX)),
        100
    );
    assert_eq!(percentage(UserHz(0), UserHz(u64::MAX)), 0);
}
