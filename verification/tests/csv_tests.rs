use rustml::csv_text::ClassPosition;
use rustml::flatten;

// Records with the class label in the last column split into features and
// labels; fields are trimmed.
#[test]
fn parse_csv_with_labels_test() {
    // string features load properly
    let records = vec![
        vec![String::from("this is a string"), String::from("0")],
        vec![String::from("this is another string"), String::from("1")],
    ];
    let str_data = rustml::csv_text::parse_csv_with_labels(&records, ClassPosition::Last);

    assert_eq!(str_data.0.len(), 2);
    assert_eq!(str_data.1.len(), 2);

    assert_eq!(str_data.0[0][0], String::from("this is a string"));
    assert_eq!(str_data.1[0].parse::<i32>().unwrap(), 0);

    // numeric features load properly
    let records = vec![
        vec![
            String::from("10.1"),
            String::from("2.3"),
            String::from("5.5"),
            String::from("0"),
        ],
        vec![
            String::from("20.24"),
            String::from(" 3.823"),
            String::from("10.2 "),
            String::from("1"),
        ],
    ];
    let num_data = rustml::csv_text::parse_csv_with_labels(&records, ClassPosition::Last);

    assert_eq!(num_data.0.len(), 2);
    assert_eq!(num_data.1.len(), 2);

    let row: Vec<f64> = num_data.0[1].iter().map(|x| x.parse().unwrap()).collect();
    assert_eq!(row, vec![20.24, 3.823, 10.2]);
    assert_eq!(num_data.1[1].parse::<i32>().unwrap(), 1);
}

// The earlier splitter always takes the label from the last column.
#[test]
fn csv_parse_csv_with_labels_test() {
    let records = vec![
        vec![String::from("this is a string"), String::from("0")],
        vec![String::from("this is another string"), String::from("1")],
    ];
    let str_data = rustml::csv_parser::parse_csv_with_labels(&records);

    assert_eq!(str_data.0.len(), 2);
    assert_eq!(str_data.1.len(), 2);

    assert_eq!(str_data.0[0][0], String::from("this is a string"));
    assert_eq!(str_data.1[0].parse::<i32>().unwrap(), 0);
    assert_eq!(str_data.1[1].parse::<i32>().unwrap(), 1);
}

// Unlabeled records keep their shape; every field is trimmed.
#[test]
fn parse_csv_without_labels_test() {
    let records = vec![
        vec![
            String::from("10.1"),
            String::from("2.3"),
            String::from("5.5"),
            String::from("0.0"),
        ],
        vec![
            String::from("20.24"),
            String::from("3.823"),
            String::from("10.2"),
            String::from("1.0"),
        ],
    ];
    let str_data = rustml::csv_text::parse_csv_without_labels(&records);

    assert_eq!(str_data[1].len(), 4);
    let row: Vec<f64> = str_data[1].iter().map(|x| x.parse().unwrap()).collect();
    assert_eq!(row, vec![20.24, 3.823, 10.2, 1.0]);

    let records = vec![
        vec![String::from("i am a string")],
        vec![String::from("  i am also a string")],
        vec![String::from("This is also a string  ")],
    ];
    let str_data = rustml::csv_text::parse_csv_without_labels(&records);

    assert_eq!(str_data.len(), 3);
    assert_eq!(str_data[2][0], String::from("This is also a string"));
}

// The label can also stand first.
#[test]
fn parse_csv_label_first_test() {
    let records = vec![vec![
        String::from("1"),
        String::from("x"),
        String::from("y"),
    ]];
    let (features, labels) = rustml::csv_text::parse_csv_with_labels(&records, ClassPosition::First);
    assert_eq!(features[0], vec![String::from("x"), String::from("y")]);
    assert_eq!(labels[0], String::from("1"));
}

#[test]
fn flatten_test() {
    let str_data: Vec<Vec<String>> = vec![
        vec![String::from("i am a string")],
        vec![String::from("i am also a string")],
        vec![String::from("This is also a string")],
    ];
    let str_data = flatten(str_data);
    assert_eq!(str_data[0], String::from("i am a string"));
}
