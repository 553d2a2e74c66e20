use std::cmp::Ordering;

use generic_launcher::calendar::day_selection::{day_box_clicked, DayClick};
use generic_launcher::calendar::marking::MarkingType;
use generic_launcher::calendar::month::{
    before_yesterday_12_am, grid_position, layout_month, month_page, shift_selected_month,
    yesterday_of, DayCell, MONTH_PAGE_CELLS,
};
use generic_launcher::calendar::note_date::NoteDate;
use generic_launcher::calendar::user_calendar_data::{overlay_message, UserCalendarData};

fn date(y: u32, m: u32, d: u32) -> NoteDate {
    NoteDate { year: y, month: m, day: d }
}

#[test]
fn note_date_parse() {
    assert_eq!(NoteDate::parse("2024-01-05"), date(2024, 1, 5));
    assert_eq!(NoteDate::parse("+2024-01-05"), date(2024, 1, 5));
    assert_eq!(NoteDate::parse("24-1-5"), date(24, 1, 5));
    assert_eq!(NoteDate::parse("0-13-40"), date(0, 13, 40));
    assert_eq!(NoteDate::try_parse("2024-01-05"), Some(date(2024, 1, 5)));
    assert_eq!(NoteDate::try_parse("2024-01"), None);
    assert_eq!(NoteDate::try_parse("2024-01-05-01"), None);
    assert_eq!(NoteDate::try_parse("2024-x1-05"), None);
    assert_eq!(NoteDate::try_parse("2024--05"), None);
    assert_eq!(NoteDate::try_parse("99999999999-01-01"), None);
}

#[test]
fn note_date_text_is_zero_padded() {
    assert_eq!(date(2024, 1, 5).to_string(), "2024-01-05");
    assert_eq!(date(7, 12, 31).to_string(), "0007-12-31");
    assert_eq!(date(12345, 10, 1).to_string(), "12345-10-01");
}

#[test]
fn note_date_text_reads_back() {
    for d in [date(2024, 1, 5), date(7, 12, 31), date(0, 0, 0), date(12345, 10, 1)] {
        assert_eq!(NoteDate::parse(&d.to_string()), d);
    }
}

#[test]
fn note_date_order() {
    let a = date(2023, 12, 31);
    let b = date(2024, 1, 1);
    let c = date(2024, 1, 2);
    assert!(a.is_before(&b));
    assert!(b.is_before(&c));
    assert!(a.is_before(&c));
    assert!(!b.is_before(&a));
    assert!(!b.is_before(&b));
    assert_eq!(a.compare(&b), Ordering::Less);
    assert_eq!(b.compare(&b), Ordering::Equal);
    assert_eq!(c.compare(&b), Ordering::Greater);
    assert_eq!(NoteDate::from((2024, 2, 29)), date(2024, 2, 29));
}

#[test]
fn marking_names() {
    assert_eq!(MarkingType::parse("One"), MarkingType::One);
    assert_eq!(MarkingType::parse("Two"), MarkingType::Two);
    assert_eq!(MarkingType::parse("None"), MarkingType::Unmarked);
    assert_eq!(MarkingType::parse(""), MarkingType::Unmarked);
    assert_eq!(MarkingType::try_parse("Two"), Some(MarkingType::Two));
    assert_eq!(MarkingType::try_parse("one"), None);
    assert_eq!(MarkingType::try_parse("Three"), None);
    for m in [MarkingType::Unmarked, MarkingType::One, MarkingType::Two] {
        assert_eq!(MarkingType::parse(&m.to_string()), m);
    }
    assert_eq!(MarkingType::One.to_string(), "One");
    assert_eq!(MarkingType::Unmarked.to_string(), "None");
}

#[test]
fn marking_cycles_in_three_clicks() {
    let mut m = MarkingType::default();
    assert_eq!(m, MarkingType::Unmarked);
    m.next();
    assert_eq!(m, MarkingType::One);
    m.next();
    assert_eq!(m, MarkingType::Two);
    m.next();
    assert_eq!(m, MarkingType::Unmarked);
}

#[test]
fn marking_css_classes() {
    assert_eq!(MarkingType::Unmarked.css_class(), None);
    assert_eq!(MarkingType::One.css_class(), Some("marking-color1".to_string()));
    assert_eq!(MarkingType::Two.css_class(), Some("marking-color2".to_string()));
}

#[test]
fn notes_read_back_what_was_written() {
    let mut data = UserCalendarData::new();
    let d = date(2024, 3, 10);
    let other = date(2024, 3, 11);
    assert!(data.get_date_entry(d).is_none());
    assert_eq!(data.get_date_notes(d), None);
    assert!(data.resync_note_changes(d, "dentist".to_string()));
    assert_eq!(data.get_date_notes(d), Some("dentist"));
    assert!(!data.resync_note_changes(d, "dentist".to_string()));
    data.set_marking(d, MarkingType::Two);
    let e = data.get_date_entry(d).unwrap();
    assert_eq!(e.marking, MarkingType::Two);
    assert_eq!(e.note, "dentist");
    assert!(data.get_date_entry(other).is_none());
    assert_eq!(data.day_decoration(d), (MarkingType::Two, true));
    assert_eq!(data.day_decoration(other), (MarkingType::Unmarked, false));
}

#[test]
fn notes_stay_sorted_by_date() {
    let mut data = UserCalendarData::new();
    data.set_marking(date(2024, 5, 1), MarkingType::One);
    data.set_marking(date(2023, 5, 1), MarkingType::Two);
    data.set_marking(date(2024, 1, 9), MarkingType::One);
    data.set_marking(date(2024, 5, 1), MarkingType::Unmarked);
    let dates: Vec<NoteDate> = data.notes.iter().map(|n| n.0).collect();
    assert_eq!(dates, vec![date(2023, 5, 1), date(2024, 1, 9), date(2024, 5, 1)]);
    assert_eq!(data.get_date_entry(date(2024, 5, 1)).unwrap().marking, MarkingType::Unmarked);
}

#[test]
fn toggling_moves_to_next_marking() {
    let mut data = UserCalendarData::new();
    let d = date(2024, 6, 1);
    assert_eq!(data.toggle_marking(d, MarkingType::Unmarked), MarkingType::One);
    assert_eq!(data.toggle_marking(d, MarkingType::One), MarkingType::Two);
    assert_eq!(data.toggle_marking(d, MarkingType::Two), MarkingType::Unmarked);
    assert_eq!(data.get_date_entry(d).unwrap().marking, MarkingType::Unmarked);
    assert_eq!(data.get_date_notes(d), Some(""));
}

#[test]
fn get_or_insert_creates_empty_entry() {
    let mut data = UserCalendarData::new();
    let d = date(2024, 6, 2);
    {
        let e = data.get_or_insert_date_entry(d);
        assert_eq!(e.marking, MarkingType::Unmarked);
        assert_eq!(e.note, "");
        e.note.push_str("x");
    }
    assert_eq!(data.get_date_notes(d), Some("x"));
}

#[test]
fn parse_notes_file() {
    let text = "[2024-01-05]\nmarking = \"One\"\nnote = \"dentist\"\n\n[2024-01-06]\nnote = \"gym\"\n";
    let data = UserCalendarData::parse_user_file(text);
    let e = data.get_date_entry(date(2024, 1, 5)).unwrap();
    assert_eq!(e.marking, MarkingType::One);
    assert_eq!(e.note, "dentist");
    let e = data.get_date_entry(date(2024, 1, 6)).unwrap();
    assert_eq!(e.marking, MarkingType::Unmarked);
    assert_eq!(e.note, "gym");
    assert_eq!(data.notes.len(), 2);
}

#[test]
fn parse_notes_file_errors() {
    assert!(UserCalendarData::try_parse_user_file("not toml [").is_none());
    assert!(UserCalendarData::try_parse_user_file("[not-a-date]\nnote = \"x\"\n").is_none());
    assert!(UserCalendarData::try_parse_user_file("[2024-01-05]\nmarking = \"Red\"\n").is_none());
    assert!(UserCalendarData::try_parse_user_file("[2024-01-05]\nnote = 3\n").is_none());
    assert!(UserCalendarData::try_parse_user_file("x = \"y\"\n").is_none());
    let empty = UserCalendarData::parse_user_file("");
    assert_eq!(UserCalendarData::try_parse_user_file("").unwrap().notes.len(), 0);
    assert_eq!(empty.notes.len(), 0);
}

#[test]
fn write_then_read_gives_same_notes() {
    let mut data = UserCalendarData::new();
    data.resync_note_changes(date(2024, 1, 5), "dentist \"at 9\"".to_string());
    data.set_marking(date(2024, 1, 5), MarkingType::One);
    data.set_marking(date(2023, 12, 24), MarkingType::Two);
    data.resync_note_changes(date(9, 2, 3), "line1\nline2".to_string());
    let text = data.write_contents().unwrap();
    assert!(text.contains("marking = \"One\""));
    let back = UserCalendarData::parse_user_file(&text);
    assert_eq!(back.notes.len(), 3);
    for (d, nd) in data.notes.iter() {
        let e = back.get_date_entry(*d).unwrap();
        assert_eq!(e.marking, nd.marking);
        assert_eq!(e.note, nd.note);
    }
}

#[test]
fn written_notes_file_layout() {
    let mut data = UserCalendarData::new();
    data.resync_note_changes(date(2024, 1, 5), "dentist".to_string());
    let text = data.write_contents().unwrap();
    let table: toml::Table = text.parse().unwrap();
    let day = table["2024-01-05"].as_table().unwrap();
    assert_eq!(day["marking"].as_str(), Some("None"));
    assert_eq!(day["note"].as_str(), Some("dentist"));
    assert_eq!(table.len(), 1);
}

#[test]
fn day_notes_display() {
    let mut data = UserCalendarData::new();
    let d = date(2024, 2, 2);
    assert_eq!(data.display_day_notes(d), (String::new(), true));
    data.resync_note_changes(d, "  \n".to_string());
    assert_eq!(data.display_day_notes(d), ("  \n".to_string(), true));
    data.resync_note_changes(d, "call mum".to_string());
    assert_eq!(data.display_day_notes(d), ("call mum".to_string(), false));
    assert_eq!(overlay_message(true), "Type to enter selected day's notes");
    assert_eq!(overlay_message(false), "No note was entered for selected day");
}

#[test]
fn month_shift_cuts_day_back() {
    assert_eq!(shift_selected_month(2024, 1, 31, true), Some((2024, 2, 29)));
    assert_eq!(shift_selected_month(2023, 1, 31, true), Some((2023, 2, 28)));
    assert_eq!(shift_selected_month(2024, 3, 31, false), Some((2024, 2, 29)));
    assert_eq!(shift_selected_month(2024, 12, 15, true), Some((2025, 1, 15)));
    assert_eq!(shift_selected_month(2024, 1, 10, false), Some((2023, 12, 10)));
    assert_eq!(shift_selected_month(1900, 1, 29, true), Some((1900, 2, 28)));
    assert_eq!(shift_selected_month(2000, 1, 29, true), Some((2000, 2, 29)));
}

#[test]
fn month_shift_round_trip() {
    let (y, m, d) = shift_selected_month(2024, 1, 31, true).unwrap();
    assert_eq!(shift_selected_month(y, m, d, false), Some((2024, 1, 29)));
    let (y, m, d) = shift_selected_month(2024, 5, 20, true).unwrap();
    assert_eq!(shift_selected_month(y, m, d, false), Some((2024, 5, 20)));
}

#[test]
fn month_shift_out_of_range() {
    assert_eq!(shift_selected_month(262142, 12, 1, true), None);
    assert_eq!(shift_selected_month(-262143, 1, 1, false), None);
}

#[test]
fn read_only_days() {
    let yesterday = yesterday_of((2024, 1, 7)).unwrap();
    assert_eq!(yesterday, (2024, 1, 6));
    assert!(before_yesterday_12_am(date(2024, 1, 5), yesterday));
    assert!(!before_yesterday_12_am(date(2024, 1, 6), yesterday));
    assert!(!before_yesterday_12_am(date(2024, 1, 7), yesterday));
    assert!(before_yesterday_12_am(date(2023, 12, 31), yesterday));
    let yesterday = yesterday_of((2024, 3, 1)).unwrap();
    assert_eq!(yesterday, (2024, 2, 29));
    assert!(before_yesterday_12_am(date(2024, 2, 28), yesterday));
    assert!(!before_yesterday_12_am(date(2024, 2, 29), yesterday));
    assert!(!before_yesterday_12_am(date(2024, 3, 1), yesterday));
}

#[test]
fn day_before() {
    assert_eq!(yesterday_of((2023, 3, 1)), Some((2023, 2, 28)));
    assert_eq!(yesterday_of((2024, 1, 1)), Some((2023, 12, 31)));
    assert_eq!(yesterday_of((2024, 5, 1)), Some((2024, 4, 30)));
    assert_eq!(yesterday_of((2024, 5, 17)), Some((2024, 5, 16)));
    assert_eq!(yesterday_of((-262143, 1, 1)), None);
}

#[test]
fn date_text_order_is_date_order() {
    let dates = [
        date(7, 12, 31),
        date(2023, 12, 31),
        date(2024, 1, 1),
        date(2024, 1, 9),
        date(2024, 1, 10),
        date(2024, 10, 2),
        date(9999, 99, 99),
    ];
    for a in dates {
        for b in dates {
            assert_eq!(a.to_string().cmp(&b.to_string()), a.compare(&b));
        }
    }
}

#[test]
fn grid_positions() {
    assert_eq!(grid_position(0), (0, 1));
    assert_eq!(grid_position(6), (6, 1));
    assert_eq!(grid_position(7), (0, 2));
    assert_eq!(grid_position(41), (6, 6));
}

#[test]
fn january_2024_page() {
    // 1 January 2024 is a Monday.
    let page = month_page(2024, 1, 15, 2024, 1);
    assert_eq!(page.cells.len(), MONTH_PAGE_CELLS);
    assert_eq!(page.cells[0], DayCell { date: date(2023, 12, 31), other_month: true });
    assert_eq!(page.cells[1], DayCell { date: date(2024, 1, 1), other_month: false });
    assert_eq!(page.cells[31], DayCell { date: date(2024, 1, 31), other_month: false });
    assert_eq!(page.cells[32], DayCell { date: date(2024, 2, 1), other_month: true });
    assert_eq!(page.cells[41], DayCell { date: date(2024, 2, 10), other_month: true });
    assert_eq!(page.highlighted, Some(15));
}

#[test]
fn page_of_other_month_has_no_highlight() {
    // 1 March 2024 is a Friday; February 2024 has 29 days.
    let page = month_page(2024, 3, 3, 2024, 1);
    assert_eq!(page.highlighted, None);
    assert_eq!(page.cells[0], DayCell { date: date(2024, 2, 25), other_month: true });
    assert_eq!(page.cells[4], DayCell { date: date(2024, 2, 29), other_month: true });
    assert_eq!(page.cells[5], DayCell { date: date(2024, 3, 1), other_month: false });
    assert_eq!(page.cells[35], DayCell { date: date(2024, 3, 31), other_month: false });
    assert_eq!(page.cells[36], DayCell { date: date(2024, 4, 1), other_month: true });
}

#[test]
fn month_starting_on_sunday() {
    // 1 September 2024 is a Sunday: the page starts with the month.
    let page = month_page(2024, 9, 1, 2024, 9);
    assert_eq!(page.cells[0], DayCell { date: date(2024, 9, 1), other_month: false });
    assert_eq!(page.cells[30], DayCell { date: date(2024, 10, 1), other_month: true });
    assert_eq!(page.highlighted, Some(0));
}

#[test]
fn layout_from_weekday_and_lengths() {
    let cells = layout_month(2025, 12, 1, 31, 30);
    assert_eq!(cells.len(), 42);
    assert_eq!(cells[0], DayCell { date: date(2025, 11, 30), other_month: true });
    assert_eq!(cells[1], DayCell { date: date(2025, 12, 1), other_month: false });
    assert_eq!(cells[32], DayCell { date: date(2026, 1, 1), other_month: true });
}

#[test]
fn day_box_clicks() {
    assert_eq!(day_box_clicked(None, 4), (None, Some(4), DayClick::Selected));
    assert_eq!(day_box_clicked(Some(4), 9), (Some(4), Some(9), DayClick::Selected));
    assert_eq!(day_box_clicked(Some(9), 9), (Some(9), None, DayClick::Deselected));
}
