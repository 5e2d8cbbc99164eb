use emissions_engine::burn_rate::BurnRateState;
use emissions_engine::converter::{carbon_emissions, ENERGY_KJ_PER_CYCLE_DEN, KJ_PER_KWH};
use emissions_engine::ratio::Ratio;

#[test]
fn average_rate_of_decreasing_readings_is_mean_of_deltas() {
    let mut st = BurnRateState::new();
    st.update(100);
    st.update(90);
    let avg = st.update(75);
    // deltas 10 and 15: mean is 25 / 2
    assert_eq!(avg.numerator(), 25);
    assert_eq!(avg.denominator(), 2);
    assert_eq!(st.delta_history, vec![10, 15]);
    assert_eq!(st.previous_reading, 75);
}

#[test]
fn non_decrease_leaves_average_unchanged() {
    let mut st = BurnRateState::new();
    st.update(100);
    st.update(90);
    let before = st.average_rate();
    // a refill: the reading rises
    let after = st.update(500);
    assert_eq!(after.numerator(), before.numerator());
    assert_eq!(after.denominator(), before.denominator());
    assert_eq!(st.delta_history, vec![10]);
    assert_eq!(st.previous_reading, 500);
}

#[test]
fn equal_reading_leaves_average_unchanged() {
    let mut st = BurnRateState::new();
    st.update(100);
    st.update(60);
    let before = st.average_rate();
    let after = st.update(60);
    assert_eq!(after.numerator(), before.numerator());
    assert_eq!(after.denominator(), before.denominator());
    assert_eq!(st.delta_history, vec![40]);
}

#[test]
fn first_reading_records_no_delta() {
    let mut st = BurnRateState::new();
    let avg = st.update(12345);
    assert_eq!(avg.numerator(), 0);
    assert_eq!(avg.denominator(), 1);
    assert!(st.delta_history.is_empty());
}

#[test]
fn carbon_emissions_of_zero_is_zero() {
    let s = carbon_emissions(0);
    assert_eq!(s.energy_used_kj.numerator(), 0);
    assert_eq!(s.carbon_kg.numerator(), 0);
}

#[test]
fn carbon_emissions_exact_ratios() {
    let s = carbon_emissions(7);
    // 7 cycles cost 7/2 kJ and 7/14_400_000 kg of carbon
    assert_eq!(s.energy_used_kj.numerator(), 7);
    assert_eq!(s.energy_used_kj.denominator(), 2);
    assert_eq!(s.carbon_kg.numerator(), 7);
    assert_eq!(s.carbon_kg.denominator(), 14_400_000);
}

#[test]
fn carbon_emissions_is_linear() {
    let a = carbon_emissions(3);
    let b = carbon_emissions(4);
    let c = carbon_emissions(7);
    assert_eq!(
        c.carbon_kg.numerator(),
        a.carbon_kg.numerator() + b.carbon_kg.numerator()
    );
    assert_eq!(c.carbon_kg.denominator(), a.carbon_kg.denominator());
    assert_eq!(
        c.energy_used_kj.numerator(),
        a.energy_used_kj.numerator() + b.energy_used_kj.numerator()
    );
}

#[test]
fn conversion_constants_have_documented_units() {
    assert_eq!(ENERGY_KJ_PER_CYCLE_DEN, 2);
    assert_eq!(KJ_PER_KWH, 3_600_000);
    let r = Ratio::new(5, 2);
    assert_eq!(r.numerator(), 5);
    assert_eq!(r.denominator(), 2);
    let z = Ratio::zero();
    assert_eq!(z.numerator(), 0);
    assert_eq!(z.denominator(), 1);
}

#[test]
fn refills_between_consumption_events_do_not_disturb_the_mean() {
    let mut st = BurnRateState::new();
    st.update(100);
    st.update(90); // delta 10
    st.update(500); // refill
    let avg = st.update(480); // delta 20
    assert_eq!(avg.numerator(), 30);
    assert_eq!(avg.denominator(), 2);
    assert_eq!(st.delta_history, vec![10, 20]);
}
