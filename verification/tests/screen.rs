use hexwife::line::Style;
use hexwife::screen::{draw_ui, layout_normal, render_search_panel, Area, Screen};
use hexwife::viewer::{HexViewer, SearchState};

fn area(width: u16, height: u16) -> Area {
    Area { x: 3, y: 5, width, height }
}

fn rows(from: u16, height: u16) -> Area {
    Area { x: 3, y: 5 + from, width: 80, height }
}

fn viewer() -> HexViewer {
    let mut v = HexViewer::open("f".to_string(), true, 1000);
    v.recalc_layout();
    v
}

#[test]
fn dump_information_and_status() {
    for height in 3..200u16 {
        let (hex, info, status) = layout_normal(area(80, height));
        assert_eq!(hex, rows(0, height - 2));
        assert_eq!(info, Some(rows(height - 2, 1)));
        assert_eq!(status, rows(height - 1, 1));
    }
}

#[test]
fn small_terminals() {
    assert_eq!(layout_normal(area(80, 2)), (rows(0, 1), None, rows(1, 1)));
    assert_eq!(layout_normal(area(80, 1)), (rows(0, 1), None, rows(0, 1)));
    assert_eq!(layout_normal(area(80, 0)), (rows(0, 0), None, rows(0, 0)));
}

#[test]
fn largest_terminal() {
    let all = Area { x: 0, y: 0, width: 65535, height: 65535 };
    let (hex, info, status) = layout_normal(all);
    assert_eq!(hex, Area { x: 0, y: 0, width: 65535, height: 65533 });
    assert_eq!(info, Some(Area { x: 0, y: 65533, width: 65535, height: 1 }));
    assert_eq!(status, Area { x: 0, y: 65534, width: 65535, height: 1 });
}

#[test]
fn area_beyond_the_last_column() {
    let area = Area { x: 1, y: 0, width: 65535, height: 3 };
    let (hex, info, status) = layout_normal(area);
    assert_eq!(hex, Area { height: 1, ..area });
    assert_eq!(info, Some(Area { y: 1, height: 1, ..area }));
    assert_eq!(status, Area { y: 2, height: 1, ..area });
}

#[test]
fn normal_screen() {
    let v = viewer();
    assert_eq!(
        draw_ui(&v, area(80, 24)),
        Screen::Normal {
            rows: 22,
            hex: rows(0, 22),
            info: Some(rows(22, 1)),
            status: rows(23, 1),
        }
    );
}

#[test]
fn narrow_screen() {
    let mut v = viewer();
    v.grouping = 4;
    assert_eq!(
        draw_ui(&v, area(21, 24)),
        Screen::Message("Enlarge terminal to at least 22 columns (grouping 4).".to_string())
    );
    assert!(matches!(draw_ui(&v, area(22, 24)), Screen::Normal { .. }));
    v.address_width = 65536;
    assert_eq!(
        draw_ui(&v, area(200, 24)),
        Screen::Message("Enlarge terminal to at least 65554 columns (grouping 4).".to_string())
    );
}

#[test]
fn prompt_screen() {
    let mut v = viewer();
    v.search = SearchState::Prompt("48".to_string());
    for height in 4..100u16 {
        assert_eq!(
            draw_ui(&v, area(80, height)),
            Screen::Prompt {
                input: "48".to_string(),
                rows: height as usize - 3,
                hex: rows(0, height - 3),
                panel: rows(height - 3, 2),
                status: rows(height - 1, 1),
            }
        );
    }
    assert_eq!(
        draw_ui(&v, area(80, 3)),
        Screen::Message("Terminal too small for search. Enlarge to at least 4 rows.".to_string())
    );
}

#[test]
fn search_panel_in_one_line() {
    let v = viewer();
    for y in (0..65535u16).step_by(37) {
        let area = Area { x: 3, y, width: 80, height: 1 };
        let panel = render_search_panel(&v, "4x", area);
        assert_eq!(panel.prompt_area, area);
        assert_eq!(panel.help_area, Area { y: y + 1, height: 0, ..area });
    }
}

#[test]
fn search_panel_without_a_line() {
    let v = viewer();
    for y in (0..65535u16).step_by(1009) {
        let area = Area { x: 3, y, width: 80, height: 0 };
        let panel = render_search_panel(&v, "4x", area);
        assert_eq!(panel.prompt_area, area);
        assert_eq!(panel.help_area, area);
    }
}

#[test]
fn search_panel() {
    let mut v = viewer();
    let panel = render_search_panel(&v, "4x", area(80, 2));
    assert_eq!(panel.prompt_area, rows(0, 1));
    assert_eq!(panel.help_area, rows(1, 1));
    assert_eq!(panel.help, "Hex: 48 65 6C 6C 6F   ASCII: \"Hello\"   Regex: /[Hh]ex/");
    let texts: Vec<&str> = panel.prompt.iter().map(|s| s.text.as_str()).collect();
    assert_eq!(texts, vec!["/", "4x"]);
    v.search_error = Some("invalid hex digit '4'".to_string());
    let panel = render_search_panel(&v, "4x", area(80, 5));
    assert_eq!(panel.prompt_area, rows(0, 1));
    assert_eq!(panel.help_area, rows(1, 1));
    assert_eq!(panel.prompt[2].text, " invalid hex digit '4'");
    assert_eq!(panel.prompt[2].style, Style::Error);
}
