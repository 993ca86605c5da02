use megadrile::header::{body_out_of_range, count_out_of_range, header_counts_in_range, read_entry, run_length, Run};
use megadrile::text::{
    header_length, is_all_digits, leading_number_fits, line_len, position_in_range,
};

#[test]
fn line_len_counts_the_newline() {
    assert_eq!(line_len(b"abc\ndef\n"), 4);
    assert_eq!(line_len(b"\nabc"), 1);
}

#[test]
fn line_len_of_a_last_line_without_newline() {
    assert_eq!(line_len(b"abc"), 3);
    assert_eq!(line_len(b""), 0);
}

#[test]
fn leading_number_is_read_up_to_the_first_other_byte() {
    assert!(leading_number_fits(b"123\t", 123));
    assert!(!leading_number_fits(b"124\t", 123));
    assert!(leading_number_fits(b"12x999", 12));
}

#[test]
fn leading_number_without_digits_is_zero() {
    assert!(leading_number_fits(b"", 0));
    assert!(leading_number_fits(b"x99", 0));
}

#[test]
fn leading_number_may_have_leading_zeros() {
    assert!(leading_number_fits(b"000000000000000000000000000007", 7));
    assert!(!leading_number_fits(b"000000000000000000000000000008", 7));
}

#[test]
fn leading_number_at_the_edge_of_u64() {
    assert!(leading_number_fits(b"18446744073709551615", u64::MAX));
    assert!(!leading_number_fits(b"18446744073709551616", u64::MAX));
    assert!(!leading_number_fits(b"99999999999999999999999999", u64::MAX));
}

#[test]
fn position_in_range_accepts_ordinary_lines() {
    assert!(position_in_range(b"1\t100\t.\tA\tC\n"));
    assert!(position_in_range(b"chrX\t18446744073709551615\t.\tA\tC\n"));
}

#[test]
fn position_in_range_refuses_a_position_beyond_u64() {
    assert!(!position_in_range(b"1\t18446744073709551616\t.\tA\tC\n"));
    assert!(!position_in_range(b"1\t99999999999999999999999\t.\tA\tC\n"));
}

#[test]
fn position_in_range_ignores_lines_without_a_position() {
    assert!(position_in_range(b""));
    assert!(position_in_range(b"\n"));
    assert!(position_in_range(b"no tabs at all 99999999999999999999999\n"));
    assert!(position_in_range(b"\t99999999999999999999999\n"));
    assert!(position_in_range(b"1\r\t99999999999999999999999\n"));
}

#[test]
fn header_length_covers_meta_lines_and_the_column_line() {
    let text = b"##fileformat=VCFv4.2\n#CHROM\tPOS\tID\tREF\tALT\n1\t5\t.\tA\tC\n";
    assert_eq!(header_length(text), 21 + 22);
}

#[test]
fn header_length_without_a_column_line() {
    assert_eq!(header_length(b"##a\n##b\n1\t5\t.\tA\tC\n"), 8);
    assert_eq!(header_length(b"##a\n##b"), 7);
}

#[test]
fn header_length_of_a_text_without_header() {
    assert_eq!(header_length(b"1\t5\t.\tA\tC\n#late\n"), 0);
    assert_eq!(header_length(b""), 0);
}

#[test]
fn header_length_stops_behind_the_first_column_line() {
    assert_eq!(header_length(b"#one\n##two\n"), 5);
}

#[test]
fn header_counts_in_range_at_the_edge_of_i32() {
    assert!(header_counts_in_range(
        b"##INFO=<ID=X,Number=2147483647,Type=Integer,Description=\"x\">\n"
    ));
    assert!(!header_counts_in_range(
        b"##INFO=<ID=X,Number=2147483648,Type=Integer,Description=\"x\">\n"
    ));
}

#[test]
fn header_counts_in_range_looks_behind_a_quote() {
    assert!(header_counts_in_range(
        b"##INFO=<ID=X,Number=\"12\",Type=Integer,Description=\"x\">\n"
    ));
    assert!(!header_counts_in_range(
        b"##INFO=<ID=X,Number=\"99999999999\",Type=Integer,Description=\"x\">\n"
    ));
}

#[test]
fn header_counts_in_range_looks_at_the_header_only() {
    assert!(header_counts_in_range(
        b"##fileformat=VCFv4.2\n#CHROM\tPOS\tID\tREF\tALT\n1\t5\t.\tA\tC\t.\t.\tNumber=99999999999\n"
    ));
    assert!(header_counts_in_range(b"Number=99999999999\n"));
    assert!(header_counts_in_range(b""));
}

#[test]
fn header_counts_in_range_accepts_symbolic_counts() {
    assert!(header_counts_in_range(
        b"##INFO=<ID=X,Number=A,Type=Integer,Description=\"x\">\n##FORMAT=<ID=Y,Number=.,Type=String,Description=\"y\">\n"
    ));
}

#[test]
fn header_counts_in_range_ignores_a_number_in_a_description() {
    assert!(header_counts_in_range(
        b"##INFO=<ID=X,Number=1,Type=Integer,Description=\"Number=99999999999\">\n"
    ));
    assert!(header_counts_in_range(
        b"##INFO=<ID=X,Number=1,Type=Integer,Description=\"a, Number=99999999999 b\">\n"
    ));
}

#[test]
fn header_counts_in_range_ignores_a_line_of_another_kind() {
    assert!(header_counts_in_range(b"##Number=3000000000"));
    assert!(header_counts_in_range(b"##contig=<ID=1,Number=3000000000>\n"));
    assert!(header_counts_in_range(b"##FILTER=<ID=q,Number=3000000000,Description=\"x\">\n"));
    assert!(header_counts_in_range(b"##info=<ID=X,Number=3000000000>\n"));
}

#[test]
fn header_counts_in_range_ignores_a_value_that_is_no_number() {
    assert!(header_counts_in_range(b"##INFO=<ID=X,Number=3000000000x,Type=Integer>\n"));
    assert!(header_counts_in_range(b"##INFO=<ID=X,Number=\"3000000000,Type=Integer>\n"));
    assert!(header_counts_in_range(b"##INFO=<ID=X,Number=-3000000000,Type=Integer>\n"));
    assert!(header_counts_in_range(b"##INFO=<ID=X,Number==3000000000,Type=Integer>\n"));
}

#[test]
fn header_counts_in_range_ignores_a_list_that_the_parser_gives_up() {
    assert!(header_counts_in_range(b"##INFO=<Number=3000000000,Type=Integer>\n"));
    assert!(header_counts_in_range(b"##INFO=<ID=X,Number=3000000000\n"));
    assert!(header_counts_in_range(b"##INFO=<ID=X,Number=3000000000,>\n"));
    assert!(header_counts_in_range(b"##INFO=<ID=X,Number=3000000000 >\n"));
    assert!(header_counts_in_range(b"##INFO=<ID=X Number=3000000000>\n"));
}

#[test]
fn header_counts_in_range_goes_by_the_first_count() {
    assert!(header_counts_in_range(b"##INFO=<ID=X,Number=1,Number=3000000000>\n"));
    assert!(!header_counts_in_range(b"##INFO=<ID=X,Number=3000000000,Number=1>\n"));
}

#[test]
fn header_counts_in_range_finds_the_id_anywhere_in_the_list() {
    assert!(!header_counts_in_range(b"##INFO=<Number=3000000000,ID=X>\n"));
    assert!(!header_counts_in_range(b"##FORMAT=<Number=\"3000000000\",Type=x,ID=\"X\">"));
    assert!(!header_counts_in_range(b"##fileformat=VCFv4.2\n##FORMAT=<ID=X,Number=0003000000000>\r\n"));
}

#[test]
fn header_counts_in_range_stops_at_the_end_of_the_header() {
    assert!(header_counts_in_range(b"#CHROM\n##INFO=<ID=X,Number=3000000000>\n"));
    assert!(header_counts_in_range(b"1\t5\n##INFO=<ID=X,Number=3000000000>\n"));
}

#[test]
fn count_out_of_range_of_single_lines() {
    assert!(count_out_of_range(b"##INFO=<ID=X,Number=2147483648>"));
    assert!(!count_out_of_range(b"##INFO=<ID=X,Number=2147483647>"));
    assert!(!count_out_of_range(b"#INFO=<ID=X,Number=2147483648>"));
    assert!(!count_out_of_range(b""));
}

#[test]
fn body_out_of_range_needs_the_closing_bracket() {
    assert!(body_out_of_range(b"ID=X,Number=2147483648>"));
    assert!(!body_out_of_range(b"ID=X,Number=2147483648"));
    assert!(!body_out_of_range(b">"));
    assert!(!body_out_of_range(b""));
}

#[test]
fn read_entry_finds_key_and_value() {
    let plain = read_entry(b"ID=abc,rest").unwrap();
    assert_eq!((plain.key_len, plain.value_at, plain.value_len, plain.len), (2, 3, 3, 6));
    let quoted = read_entry(b"Description=\"a, b\">").unwrap();
    assert_eq!((quoted.key_len, quoted.value_at, quoted.value_len, quoted.len), (11, 13, 4, 18));
    let unclosed = read_entry(b"K=\"ab").unwrap();
    assert_eq!((unclosed.key_len, unclosed.value_at, unclosed.value_len, unclosed.len), (1, 2, 3, 5));
    let empty_quotes = read_entry(b"K=\"\",x").unwrap();
    assert_eq!((empty_quotes.value_at, empty_quotes.value_len, empty_quotes.len), (2, 2, 4));
}

#[test]
fn read_entry_of_what_is_no_entry() {
    assert!(read_entry(b"").is_none());
    assert!(read_entry(b"=x").is_none());
    assert!(read_entry(b"key").is_none());
    assert!(read_entry(b"key=").is_none());
    assert!(read_entry(b"key=,").is_none());
    assert!(read_entry(b"key x=1").is_none());
}

#[test]
fn run_length_of_each_kind() {
    assert_eq!(run_length(Run::Key, b"ab=c"), 2);
    assert_eq!(run_length(Run::Value, b"ab=c,d"), 4);
    assert_eq!(run_length(Run::Quoted, b"a, b=\"c"), 5);
    assert_eq!(run_length(Run::Key, b""), 0);
    assert_eq!(run_length(Run::Value, b"abc"), 3);
}

#[test]
fn is_all_digits_of_some_strings() {
    assert!(is_all_digits(b"0123456789"));
    assert!(is_all_digits(b""));
    assert!(!is_all_digits(b"12a"));
    assert!(!is_all_digits(b"-1"));
}
