use annex::displays::{render, DisplayInfo};

#[test]
fn the_census_matches_the_formatted_table() {
    let list = vec![
        DisplayInfo { id: 1, width: 1512, height: 982, builtin: true, vendor: 0x610 },
        DisplayInfo { id: 4242424242, width: 1920, height: 1080, builtin: false, vendor: 0xABCDE },
    ];
    let expected = list
        .iter()
        .map(|d| {
            let mark = if d.id == 4242424242 { " <-- ours" } else { "" };
            let kind = if d.builtin { "built-in" } else { "external" };
            format!(
                "      {:>10}  {:>5} x {:<5} {:<9} vendor 0x{:04X}{}",
                d.id, d.width, d.height, kind, d.vendor, mark
            )
        })
        .collect::<Vec<_>>()
        .join("\n");
    assert_eq!(render(&list, Some(4242424242)), expected);
    assert_eq!(
        render(&list[..1], None),
        "               1   1512 x 982   built-in  vendor 0x0610"
    );
    assert_eq!(render(&[], None), "");
}
