use n_body::mov_avg::{MovingAverage, NUM};

fn window(m: &MovingAverage<i64>) -> Vec<i64> {
    m.values().to_vec()
}

#[test]
fn new_window_holds_defaults() {
    let m: MovingAverage<i64> = MovingAverage::new();
    assert_eq!(window(&m), vec![0; NUM]);
    let f: MovingAverage<f32> = MovingAverage::new();
    assert_eq!(f.values(), [0.0f32; NUM]);
}

#[test]
fn insert_fills_slots_in_order() {
    let mut m: MovingAverage<i64> = MovingAverage::new();
    m.insert(7);
    m.insert(8);
    let mut expected = vec![0; NUM];
    expected[0] = 7;
    expected[1] = 8;
    assert_eq!(window(&m), expected);
}

#[test]
fn insert_wraps_around() {
    let mut m: MovingAverage<i64> = MovingAverage::new();
    for x in 1..=(NUM as i64 + 3) {
        m.insert(x);
    }
    // slots 0..3 were overwritten by the 11th, 12th and 13th values
    assert_eq!(window(&m), vec![11, 12, 13, 4, 5, 6, 7, 8, 9, 10]);
}

#[test]
fn window_keeps_the_last_values() {
    let mut m: MovingAverage<i64> = MovingAverage::new();
    for x in 0..57 {
        m.insert(x * x);
    }
    let mut kept = window(&m);
    kept.sort();
    let expected: Vec<i64> = (47..57).map(|x| x * x).collect();
    assert_eq!(kept, expected);
}

#[test]
fn average_of_floats_over_window() {
    let mut m: MovingAverage<f32> = MovingAverage::new();
    for _ in 0..NUM {
        m.insert(2.0);
    }
    let sum: f32 = m.values().iter().sum();
    assert_eq!(sum / NUM as f32, 2.0);
}
