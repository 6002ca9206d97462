use dnn_core::dataset::{array_from_dataframe, load_data_as_dataframe, Column, Table};
use dnn_core::error::LoadError;

fn column_of(name: &str, values: &[f32]) -> Column {
    Column { name: name.to_string(), cells: values.iter().map(|x| Some(x.to_bits())).collect() }
}

fn names_of(table: &Table) -> Vec<String> {
    (0..table.width()).map(|j| table.column(j).unwrap().name.clone()).collect()
}

fn values_of(cells: Vec<u32>) -> Vec<f32> {
    cells.into_iter().map(f32::from_bits).collect()
}

fn example_table() -> Table {
    Table::new(
        2,
        vec![column_of("x1", &[1.0, 3.0]), column_of("x2", &[2.0, 4.0]), column_of("y", &[5.0, 6.0])],
    )
    .unwrap()
}

#[test]
fn table_new_refuses_columns_of_unequal_length() {
    assert!(Table::new(2, vec![column_of("a", &[1.0, 2.0]), column_of("b", &[1.0])]).is_none());
    assert!(Table::new(3, vec![column_of("a", &[1.0, 2.0])]).is_none());
    assert!(Table::new(2, vec![column_of("a", &[1.0, 2.0])]).is_some());
    assert!(Table::new(5, vec![]).is_some());
}

#[test]
fn table_accessors() {
    let t = example_table();
    assert_eq!(t.height(), 2);
    assert_eq!(t.width(), 3);
    assert_eq!(t.column(1).unwrap().name, "x2");
    assert_eq!(t.column(2).unwrap().cells, vec![Some(5.0f32.to_bits()), Some(6.0f32.to_bits())]);
    assert!(t.column(3).is_none());
}

#[test]
fn split_sends_y_to_the_labels_and_the_rest_to_the_features() {
    let (x, y) = load_data_as_dataframe(&example_table()).unwrap();
    assert_eq!(names_of(&x), vec!["x1", "x2"]);
    assert_eq!(names_of(&y), vec!["y"]);
    assert_eq!(x.height(), 2);
    assert_eq!(y.height(), 2);
    assert_eq!(x.column(0).unwrap().cells, vec![Some(1.0f32.to_bits()), Some(3.0f32.to_bits())]);
    assert_eq!(y.column(0).unwrap().cells, vec![Some(5.0f32.to_bits()), Some(6.0f32.to_bits())]);
}

#[test]
fn split_example_gives_the_expected_matrices() {
    let (x, y) = load_data_as_dataframe(&example_table()).unwrap();
    let xm = array_from_dataframe(&x).unwrap();
    assert_eq!(xm.dim(), (2, 2));
    assert_eq!(values_of(xm.to_vec()), vec![1.0, 3.0, 2.0, 4.0]);
    let ym = array_from_dataframe(&y).unwrap();
    assert_eq!(ym.dim(), (1, 2));
    assert_eq!(values_of(ym.to_vec()), vec![5.0, 6.0]);
}

#[test]
fn split_keeps_the_order_of_the_feature_columns() {
    let t = Table::new(
        1,
        vec![
            column_of("c", &[1.0]),
            column_of("y", &[2.0]),
            column_of("a", &[3.0]),
            column_of("b", &[4.0]),
        ],
    )
    .unwrap();
    let (x, y) = load_data_as_dataframe(&t).unwrap();
    assert_eq!(names_of(&x), vec!["c", "a", "b"]);
    assert_eq!(names_of(&y), vec!["y"]);
    let mut all = names_of(&x);
    all.push("y".to_string());
    all.sort();
    let mut source = names_of(&t);
    source.sort();
    assert_eq!(all, source);
}

#[test]
fn split_without_a_label_column_is_a_format_error() {
    let t = Table::new(2, vec![column_of("x1", &[1.0, 3.0]), column_of("x2", &[2.0, 4.0])]).unwrap();
    assert_eq!(load_data_as_dataframe(&t).err(), Some(LoadError::Format));
    let empty = Table::new(0, vec![]).unwrap();
    assert_eq!(load_data_as_dataframe(&empty).err(), Some(LoadError::Format));
    let upper = Table::new(1, vec![column_of("Y", &[1.0])]).unwrap();
    assert_eq!(load_data_as_dataframe(&upper).err(), Some(LoadError::Format));
}

#[test]
fn split_of_a_table_with_only_labels() {
    let t = Table::new(3, vec![column_of("y", &[1.0, 0.0, 1.0])]).unwrap();
    let (x, y) = load_data_as_dataframe(&t).unwrap();
    assert_eq!(x.width(), 0);
    assert_eq!(x.height(), 3);
    assert_eq!(y.width(), 1);
    assert_eq!(y.height(), 3);
    let xm = array_from_dataframe(&x).unwrap();
    assert_eq!(xm.dim(), (0, 3));
}

#[test]
fn split_sends_every_column_named_y_to_the_labels() {
    let t = Table::new(
        1,
        vec![column_of("y", &[1.0]), column_of("x", &[2.0]), column_of("y", &[3.0])],
    )
    .unwrap();
    let (x, y) = load_data_as_dataframe(&t).unwrap();
    assert_eq!(names_of(&x), vec!["x"]);
    assert_eq!(names_of(&y), vec!["y", "y"]);
    assert_eq!(y.column(1).unwrap().cells, vec![Some(3.0f32.to_bits())]);
}

#[test]
fn array_has_one_row_per_column_and_one_column_per_row() {
    let t = Table::new(
        3,
        vec![column_of("a", &[1.0, 2.0, 3.0]), column_of("b", &[4.0, 5.0, 6.0])],
    )
    .unwrap();
    let m = array_from_dataframe(&t).unwrap();
    assert_eq!(m.dim(), (2, 3));
    assert_eq!(values_of(m.to_vec()), vec![1.0, 2.0, 3.0, 4.0, 5.0, 6.0]);
    assert_eq!(m.get(0, 2).map(f32::from_bits), Some(3.0));
    assert_eq!(m.get(1, 0).map(f32::from_bits), Some(4.0));
}

#[test]
fn array_of_a_table_without_rows() {
    let t = Table::new(0, vec![column_of("a", &[]), column_of("b", &[])]).unwrap();
    let m = array_from_dataframe(&t).unwrap();
    assert_eq!(m.dim(), (2, 0));
}

#[test]
fn array_refuses_a_cell_without_a_number() {
    let t = Table::new(
        2,
        vec![
            column_of("a", &[1.0, 2.0]),
            Column { name: "b".to_string(), cells: vec![Some(3.0f32.to_bits()), None] },
        ],
    )
    .unwrap();
    assert_eq!(array_from_dataframe(&t).err(), Some(LoadError::Format));
}

#[test]
fn array_refuses_a_shape_beyond_the_size_limit() {
    let t = Table::new(usize::MAX, vec![]).unwrap();
    assert_eq!(array_from_dataframe(&t).err(), Some(LoadError::Format));
}
