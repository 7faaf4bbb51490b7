use seir_model::save;
use seir_model::csv::write_row;

fn cells(xs: &[&str]) -> Vec<String> {
    xs.iter().map(|x| String::from(*x)).collect()
}

#[test]
fn save_writes_one_line_per_state() {
    let times = cells(&["0", "1"]);
    let states = vec![cells(&["0.9999995", "0.0000004", "0.0000001", "0"]), cells(&["0.5", "0.25", "0.125", "0.125"])];
    let mut sink = String::new();
    save(&times, &states, &mut sink);
    assert_eq!(sink, "0, 0.9999995, 0.0000004, 0.0000001, 0\n1, 0.5, 0.25, 0.125, 0.125\n");
}

#[test]
fn save_of_nothing_writes_nothing() {
    let mut sink = String::new();
    save(&Vec::new(), &Vec::new(), &mut sink);
    assert_eq!(sink, "");
}

#[test]
fn save_ignores_times_beyond_the_last_state() {
    let times = cells(&["0", "1", "2"]);
    let states = vec![cells(&["a", "b", "c", "d"])];
    let mut sink = String::new();
    save(&times, &states, &mut sink);
    assert_eq!(sink, "0, a, b, c, d\n");
}

#[test]
fn save_keeps_what_the_sink_held() {
    let mut sink = String::from("kept\n");
    save(&cells(&["7"]), &vec![cells(&["x"])], &mut sink);
    assert_eq!(sink, "kept\n7, x\n");
}

#[test]
fn write_row_without_cells_is_the_time_alone() {
    let mut sink = String::new();
    write_row(&String::from("3.5"), &Vec::new(), &mut sink);
    assert_eq!(sink, "3.5\n");
}
