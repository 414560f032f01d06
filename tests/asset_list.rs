use homebox_labels::{
    expand_list, parse, parse_bytes, AssetId, Expected, ListEntry, RangeDirectionError,
    SyntaxError, Validate,
};

fn ids(pairs: &[(u16, u16)]) -> Vec<AssetId> {
    pairs.iter().map(|&(a, b)| AssetId(a, b)).collect()
}

fn drain(mut it: homebox_labels::ListEntryIter) -> Vec<AssetId> {
    let mut out = Vec::new();
    while let Some(id) = it.next() {
        out.push(id);
    }
    out
}

#[test]
fn render_then_parse_round_trips() {
    let values = [0u16, 1, 7, 9, 10, 42, 99, 100, 500, 998, 999];
    for &a in &values {
        for &b in &values {
            let id = AssetId::new(a, b).unwrap();
            let text = id.to_string();
            assert_eq!(text.len(), 7);
            assert_eq!(parse(&text).unwrap(), vec![ListEntry::Id(id)]);
        }
    }
}

#[test]
fn render_pads_to_three_digits() {
    assert_eq!(AssetId(12, 7).to_string(), "012-007");
    assert_eq!(AssetId(0, 0).to_string(), "000-000");
    assert_eq!(AssetId(999, 100).to_string(), "999-100");
}

#[test]
fn single_entry_expansion() {
    let list = parse("007-003").unwrap();
    assert_eq!(list, vec![ListEntry::Id(AssetId(7, 3))]);
    assert_eq!(list[0].expand(), ids(&[(7, 3)]));
    assert_eq!(drain(list[0].into_iter()), ids(&[(7, 3)]));
}

#[test]
fn simple_range_expansion_carries() {
    let list = parse("000-998--000-999,001-000--001-002").unwrap();
    assert_eq!(
        list,
        vec![
            ListEntry::Range { from: AssetId(0, 998), to: AssetId(0, 999) },
            ListEntry::Range { from: AssetId(1, 0), to: AssetId(1, 2) },
        ]
    );
    assert!(list.validate().is_ok());
    assert_eq!(expand_list(&list), ids(&[(0, 998), (0, 999), (1, 0), (1, 1), (1, 2)]));
}

#[test]
fn range_across_primary_boundary() {
    let list = parse("004-998--005-001").unwrap();
    assert_eq!(expand_list(&list), ids(&[(4, 998), (4, 999), (5, 0), (5, 1)]));
}

#[test]
fn reversed_range_rejected() {
    let list = parse("005-000--003-000").unwrap();
    assert_eq!(
        list,
        vec![ListEntry::Range { from: AssetId(5, 0), to: AssetId(3, 0) }]
    );
    assert_eq!(list.validate(), Err(RangeDirectionError { index: 0 }));
}

#[test]
fn validation_reports_first_reversed_range() {
    let list = parse("001-000,002-000--002-005,004-001--004-000,009-000--001-000").unwrap();
    assert_eq!(list.validate(), Err(RangeDirectionError { index: 2 }));
}

#[test]
fn validation_accepts_equal_ends_and_singles() {
    let list = parse("003-003--003-003,001-000,000-001").unwrap();
    assert_eq!(list.validate(), Ok(()));
    assert_eq!(expand_list(&list), ids(&[(3, 3), (1, 0), (0, 1)]));
}

#[test]
fn malformed_input_rejected() {
    assert_eq!(
        parse("12-000"),
        Err(SyntaxError { position: 0, expected: Expected::Identifier })
    );
    assert_eq!(
        parse("000-000-"),
        Err(SyntaxError { position: 7, expected: Expected::SeparatorOrEnd })
    );
    assert_eq!(
        parse(""),
        Err(SyntaxError { position: 0, expected: Expected::Identifier })
    );
    assert_eq!(
        parse("000-000,,001-000"),
        Err(SyntaxError { position: 8, expected: Expected::Identifier })
    );
}

#[test]
fn malformed_components_and_ranges_rejected() {
    assert_eq!(
        parse("0000-000"),
        Err(SyntaxError { position: 0, expected: Expected::Identifier })
    );
    assert_eq!(
        parse("000-0000"),
        Err(SyntaxError { position: 7, expected: Expected::SeparatorOrEnd })
    );
    assert_eq!(
        parse("000-000--"),
        Err(SyntaxError { position: 9, expected: Expected::Identifier })
    );
    assert_eq!(
        parse("--000-000"),
        Err(SyntaxError { position: 0, expected: Expected::Identifier })
    );
    assert_eq!(
        parse("000-000,"),
        Err(SyntaxError { position: 8, expected: Expected::Identifier })
    );
    assert_eq!(
        parse("000 -000"),
        Err(SyntaxError { position: 0, expected: Expected::Identifier })
    );
    assert_eq!(
        parse("0a0-000"),
        Err(SyntaxError { position: 0, expected: Expected::Identifier })
    );
    assert_eq!(
        parse("000-000,é"),
        Err(SyntaxError { position: 8, expected: Expected::Identifier })
    );
}

#[test]
fn spaces_between_tokens_accepted() {
    let list = parse("  000-001 --  000-002 ,001-000  ").unwrap();
    assert_eq!(
        list,
        vec![
            ListEntry::Range { from: AssetId(0, 1), to: AssetId(0, 2) },
            ListEntry::Id(AssetId(1, 0)),
        ]
    );
    assert_eq!(parse_bytes(b"001-001 , 002-002").unwrap().len(), 2);
}

#[test]
fn order_preserved_in_expansion() {
    let list = parse("005-000,001-000--001-001,003-000").unwrap();
    assert_eq!(expand_list(&list), ids(&[(5, 0), (1, 0), (1, 1), (3, 0)]));
}

#[test]
fn duplicates_kept() {
    let list = parse("002-000,002-000,001-998--002-000").unwrap();
    assert_eq!(expand_list(&list), ids(&[(2, 0), (2, 0), (1, 998), (1, 999), (2, 0)]));
}

#[test]
fn independent_expansions_agree() {
    let entry = ListEntry::Range { from: AssetId(3, 997), to: AssetId(4, 1) };
    let mut first = entry.into_iter();
    let mut second = entry.into_iter();
    assert_eq!(first.next(), Some(AssetId(3, 997)));
    assert_eq!(first.next(), Some(AssetId(3, 998)));
    let rest_of_second = drain(second);
    let mut rest_of_first = vec![AssetId(3, 997), AssetId(3, 998)];
    rest_of_first.extend(drain(first));
    assert_eq!(rest_of_first, rest_of_second);
    assert_eq!(rest_of_second, ids(&[(3, 997), (3, 998), (3, 999), (4, 0), (4, 1)]));
    assert_eq!(entry.expand(), entry.expand());
    second = entry.into_iter();
    assert_eq!(second.next(), Some(AssetId(3, 997)));
}

#[test]
fn exhausted_iterator_stays_exhausted() {
    let mut it = ListEntry::Id(AssetId(1, 1)).into_iter();
    assert_eq!(it.next(), Some(AssetId(1, 1)));
    assert_eq!(it.next(), None);
    assert_eq!(it.next(), None);
}

#[test]
fn range_ending_at_greatest_identifier() {
    let entry = ListEntry::Range { from: AssetId(999, 998), to: AssetId(999, 999) };
    let mut it = entry.into_iter();
    assert_eq!(it.next(), Some(AssetId(999, 998)));
    assert_eq!(it.next(), Some(AssetId(999, 999)));
    assert_eq!(it.next(), None);
    assert_eq!(it.next(), None);
}

#[test]
fn reversed_range_expands_to_its_start() {
    let entry = ListEntry::Range { from: AssetId(5, 0), to: AssetId(3, 0) };
    assert_eq!(entry.expand(), ids(&[(5, 0)]));
}

#[test]
fn increment_without_carry() {
    let mut id = AssetId(12, 7);
    id.increment();
    assert_eq!(id, AssetId(12, 8));
}

#[test]
fn increment_with_carry() {
    let mut id = AssetId(0, 999);
    id.increment();
    assert_eq!(id, AssetId(1, 0));
    let mut id = AssetId(998, 999);
    id.increment();
    assert_eq!(id, AssetId(999, 0));
}

#[test]
fn construction_checks_bounds() {
    assert_eq!(AssetId::new(999, 999), Some(AssetId(999, 999)));
    assert_eq!(AssetId::new(1000, 0), None);
    assert_eq!(AssetId::new(0, 1000), None);
}

#[test]
fn order_is_primary_then_secondary() {
    assert!(AssetId(1, 999).is_before(&AssetId(2, 0)));
    assert!(AssetId(2, 0).is_before(&AssetId(2, 1)));
    assert!(!AssetId(2, 1).is_before(&AssetId(2, 1)));
    assert!(!AssetId(3, 0).is_before(&AssetId(2, 999)));
}

#[test]
fn label_style_embeds_base64() {
    assert_eq!(
        homebox_labels::label_style(b"hi"),
        "background-image: url(data:image/png;base64,aGk=)"
    );
    assert_eq!(
        homebox_labels::label_style(b""),
        "background-image: url(data:image/png;base64,)"
    );
}

#[test]
fn background_style_wraps_data() {
    assert_eq!(
        homebox_labels::background_style("QUJD"),
        "background-image: url(data:image/png;base64,QUJD)"
    );
}

#[test]
fn pages_fill_in_order_after_skipped_cells() {
    let pages = homebox_labels::page_cells(3, 2, 5);
    assert_eq!(
        pages,
        vec![
            vec![None, None, Some(0)],
            vec![Some(1), Some(2), Some(3)],
            vec![Some(4)],
        ]
    );
}

#[test]
fn exactly_full_pages_add_no_empty_page() {
    let pages = homebox_labels::page_cells(2, 0, 4);
    assert_eq!(pages, vec![vec![Some(0), Some(1)], vec![Some(2), Some(3)]]);
}

#[test]
fn no_cells_give_one_empty_page() {
    let pages = homebox_labels::page_cells(65, 0, 0);
    assert_eq!(pages, vec![Vec::<Option<usize>>::new()]);
}

#[test]
fn skipped_cells_alone_fill_pages() {
    let pages = homebox_labels::page_cells(2, 3, 0);
    assert_eq!(pages, vec![vec![None, None], vec![None]]);
}
