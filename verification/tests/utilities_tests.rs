use rustlox::surrounding_box::get_surrounding_box;

#[test]
fn test_your_function() {
    let mut lines_of_statements_in_response = vec![
        String::from("This is the first line"),
        String::from("And the second"),
    ];
    get_surrounding_box(&mut lines_of_statements_in_response);

    let intended_result = vec![
        String::from("┌────────────────────────┐"),
        String::from("│ This is the first line │"),
        String::from("│ And the second         │"),
        String::from("└────────────────────────┘"),
    ];

    assert_eq!(lines_of_statements_in_response, intended_result);
}

#[test]
fn surrounding_box_empty_input() {
    let mut lines: Vec<String> = Vec::new();
    get_surrounding_box(&mut lines);
    assert_eq!(lines, vec![String::from("┌──┐"), String::from("└──┘")]);
}

#[test]
fn surrounding_box_single_line() {
    let mut lines = vec![String::from("hi")];
    get_surrounding_box(&mut lines);
    assert_eq!(
        lines,
        vec![
            String::from("┌────┐"),
            String::from("│ hi │"),
            String::from("└────┘"),
        ]
    );
}
