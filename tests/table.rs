use gfm_tidy::table::{Alignment, Column, Table};

fn render(lines: &[&str]) -> String {
    Table::new(lines).to_string()
}

#[test]
fn basic_table_is_aligned() {
    let out = render(&["| A | B |", "|---|---|", "| 1 | 22 |"]);
    assert_eq!(out, "| A | B  |\n|:--|:---|\n| 1 | 22 |");
}

#[test]
fn right_and_center_alignment() {
    let table = Table::new(&["| X | Y |", "|---:|:---:|", "| 1 | 2 |"]);
    assert_eq!(table.column(0).alignment, Alignment::Right);
    assert_eq!(table.column(1).alignment, Alignment::Center);
    assert_eq!(table.to_string(), "| X | Y |\n|--:|:-:|\n| 1 | 2 |");
}

#[test]
fn escaped_pipe_stays_in_cell() {
    let table = Table::new(&["| H | I |", "|---|---|"]);
    let cells = table.split_line("| a\\|b | c |");
    assert_eq!(cells, vec!["a|b".to_string(), "c".to_string()]);
}

#[test]
fn missing_cell_is_padded() {
    let out = render(&["| A | Bee |", "|---|---|", "| only |"]);
    assert_eq!(out, "| A    | Bee |\n|:-----|:----|\n| only |     |");
}

#[test]
fn formatting_is_a_fixed_point() {
    let first = render(&["|Name|Qty|", "|:-:|--:|", "| apple | 3 |", "|kiwi|12|"]);
    let lines: Vec<&str> = first.lines().collect();
    assert_eq!(render(&lines), first);
    assert_eq!(
        first,
        "| Name  | Qty |\n|:-----:|----:|\n| apple |   3 |\n| kiwi  |  12 |"
    );
}

#[test]
fn width_is_widest_cell_over_header_and_body() {
    let table = Table::new(&["| a | bb |", "|------------|---|", "| ccc | d |"]);
    assert_eq!(table.column(0).width, 3);
    assert_eq!(table.column(1).width, 2);
}

#[test]
fn extra_cells_are_dropped() {
    let out = render(&["| A |", "|---|", "| 1 | 2 | 3 |"]);
    assert_eq!(out, "| A |\n|:--|\n| 1 |");
}

#[test]
fn column_count_from_separator_delimiters() {
    let table = Table::new(&["| A |", "|---|---|"]);
    assert_eq!(table.number_of_columns(), 2);
    assert_eq!(table.split_line("| A |"), vec!["A".to_string(), String::new()]);
}

#[test]
fn alignment_markers() {
    let table = Table::new(&["| a | b | c | d |", "|:---|---:|:---:|---|"]);
    assert_eq!(table.column(0).alignment, Alignment::Left);
    assert_eq!(table.column(1).alignment, Alignment::Right);
    assert_eq!(table.column(2).alignment, Alignment::Center);
    assert_eq!(table.column(3).alignment, Alignment::Left);
}

#[test]
fn center_puts_odd_space_on_the_right() {
    let table = Table::new(&["| abcd |", "|:-:|"]);
    assert_eq!(table.format_line("| a |"), "|  a   |");
    assert_eq!(table.format_separation_line(), "|:----:|");
}

#[test]
fn right_alignment_pads_before() {
    let table = Table::new(&["| long |", "|--:|"]);
    assert_eq!(table.format_line("|x|"), "|    x |");
}

#[test]
fn header_and_separator_only() {
    assert_eq!(render(&["| A | B |", "|---|---|"]), "| A | B |\n|:--|:--|");
}

#[test]
fn cells_are_trimmed() {
    let table = Table::new(&["| A |", "|---|"]);
    assert_eq!(table.split_line("|   spaced out \t |"), vec!["spaced out".to_string()]);
}

#[test]
fn escape_before_other_character_is_dropped() {
    let table = Table::new(&["| A |", "|---|"]);
    assert_eq!(table.split_line("| a\\b |"), vec!["ab".to_string()]);
    assert_eq!(table.split_line("| a\\\\b |"), vec!["a\\b".to_string()]);
}

#[test]
fn empty_cells_give_zero_width() {
    let table = Table::new(&["|  |", "|---|"]);
    assert_eq!(table.column(0).width, 0);
    assert_eq!(table.to_string(), "|  |\n|:-|");
}

#[test]
fn width_counts_characters() {
    let table = Table::new(&["| é |", "|---|", "| ab |"]);
    assert_eq!(table.column(0).width, 2);
    assert_eq!(table.format_line("| é |"), "| é  |");
}

#[test]
fn column_default_is_empty_left() {
    let column = Column::default();
    assert_eq!(column.width, 0);
    assert_eq!(column.alignment, Alignment::Left);
}

#[test]
fn escaped_pipe_renders_as_content() {
    let table = Table::new(&["| H | I |", "|---|---|"]);
    assert_eq!(table.format_line("| a\\|b | c |"), "| a|b | c |");
    assert_eq!(table.column(0).width, 1);
}

#[test]
fn split_line_keeps_extra_cells() {
    let table = Table::new(&["| A |", "|---|"]);
    assert_eq!(
        table.split_line("| a | b | c |"),
        vec!["a".to_string(), "b".to_string(), "c".to_string()]
    );
    assert_eq!(table.split_line("| a | b |"), vec!["a".to_string(), "b".to_string()]);
}

#[test]
fn every_output_line_has_one_cell_per_column() {
    let out = render(&["| A | B |", "|:-:|---|", "| 1 |", "| 1 | 2 | 3 | 4 |"]);
    for line in out.lines() {
        assert_eq!(line.matches('|').count(), 3);
    }
}
