use dioxus_components::clock::{
    column_choice, column_items, column_values, current_selection, disabled_values,
    display_12h_hour, effective_bound, emit_choice, option_disabled, preset_disabled,
    preset_label, time_input_sections, to_24h_hour, ClockSelection, ClockTime, TimeColumn,
    TimeInputClearSectionMode, TimePickerFormat,
};
use dioxus_components::color::{format_rgb_hex, normalize_hex, parse_hex_rgb};
use dioxus_components::field::{
    append_class, attribute_bool, attribute_text, build_input_field_text_state, described_by,
    merge_described_by, password_input_type, resolve_control_field, FieldAttribute,
    FieldAttributeValue, VisibilityState,
};
use dioxus_components::number_text::{
    blur_clears, blur_number_text, format_number_text, normalize_number_text, sanitize,
};
use dioxus_components::variants::{
    sidebar_state, sidebar_toggle, typography_extras, AlertVariant, BadgeVariant, HeadingLevel, InputRadius,
    InputSize, InputVariant, SidebarCollapsible, SidebarState, TabsVariant, TextareaVariant,
    TypographyTone,
};

fn time(hour: u8, minute: u8, second: u8) -> ClockTime {
    ClockTime {
        hour,
        minute,
        second,
        nanosecond: 0,
    }
}

fn am_pm() -> (String, String) {
    ("AM".to_string(), "PM".to_string())
}

#[test]
fn twelve_hour_display_maps_midnight_and_noon_to_twelve() {
    assert_eq!(display_12h_hour(0), 12);
    assert_eq!(display_12h_hour(12), 12);
    assert_eq!(display_12h_hour(13), 1);
    assert_eq!(display_12h_hour(11), 11);
}

#[test]
fn twelve_hour_round_trip_gives_the_hour_back() {
    for hour in 0u8..24 {
        assert_eq!(to_24h_hour(display_12h_hour(hour), hour >= 12), hour);
    }
    assert_eq!(to_24h_hour(12, false), 0);
    assert_eq!(to_24h_hour(12, true), 12);
}

#[test]
fn preset_labels_follow_the_clock_format() {
    let t = time(9, 5, 7);
    assert_eq!(preset_label(t, TimePickerFormat::TwentyFourHour, false, &am_pm()), "09:05");
    assert_eq!(preset_label(t, TimePickerFormat::TwentyFourHour, true, &am_pm()), "09:05:07");
    assert_eq!(preset_label(time(0, 30, 0), TimePickerFormat::TwelveHour, false, &am_pm()), "12:30 AM");
    assert_eq!(preset_label(time(15, 0, 9), TimePickerFormat::TwelveHour, true, &am_pm()), "3:00:09 PM");
}

#[test]
fn from_hms_rejects_out_of_range_parts() {
    assert_eq!(ClockTime::from_hms(23, 59, 59), Some(time(23, 59, 59)));
    assert_eq!(ClockTime::from_hms(24, 0, 0), None);
    assert_eq!(ClockTime::from_hms(0, 60, 0), None);
    assert!(time(8, 0, 0).is_before(&time(8, 0, 1)));
    assert!(!time(8, 0, 1).is_before(&time(8, 0, 1)));
}

#[test]
fn bounds_drop_seconds_without_a_seconds_column() {
    let bound = ClockTime {
        hour: 8,
        minute: 15,
        second: 42,
        nanosecond: 5,
    };
    assert_eq!(effective_bound(bound, false), time(8, 15, 0));
    assert_eq!(effective_bound(bound, true), bound);
}

#[test]
fn column_values_step_and_include_the_current_value() {
    assert_eq!(
        column_values(TimeColumn::Minute, TimePickerFormat::TwentyFourHour, 15, Some(7)),
        vec![0, 7, 15, 30, 45]
    );
    assert_eq!(
        column_values(TimeColumn::Hour, TimePickerFormat::TwelveHour, 5, None),
        vec![1, 6, 11]
    );
    assert_eq!(
        column_values(TimeColumn::Second, TimePickerFormat::TwentyFourHour, 0, Some(30)).len(),
        60
    );
    assert_eq!(
        column_values(TimeColumn::Period, TimePickerFormat::TwelveHour, 1, None),
        vec![0, 1]
    );
}

#[test]
fn column_items_are_zero_padded() {
    let items = column_items(&vec![0, 7, 45]);
    assert_eq!(
        items,
        vec![(0, "00".to_string()), (7, "07".to_string()), (45, "45".to_string())]
    );
}

#[test]
fn choices_emit_only_times_within_range() {
    let min = time(9, 0, 0);
    let max = time(17, 30, 0);
    let current = current_selection(Some(time(14, 20, 0)), TimePickerFormat::TwelveHour, false);
    assert_eq!(
        current,
        Some(ClockSelection {
            hour: 2,
            minute: 20,
            second: 0,
            period: 1,
        })
    );
    let choice = column_choice(current, TimePickerFormat::TwelveHour, TimeColumn::Hour, 4);
    assert_eq!(choice, (4, 20, 0, 1));
    assert_eq!(
        emit_choice(choice, TimePickerFormat::TwelveHour, false, &min, &max),
        Some(time(16, 20, 0))
    );
    let late = column_choice(current, TimePickerFormat::TwelveHour, TimeColumn::Hour, 6);
    assert_eq!(emit_choice(late, TimePickerFormat::TwelveHour, false, &min, &max), None);
    assert!(option_disabled(late, TimePickerFormat::TwelveHour, false, &min, &max));
    let morning = column_choice(current, TimePickerFormat::TwelveHour, TimeColumn::Period, 0);
    assert!(option_disabled(morning, TimePickerFormat::TwelveHour, false, &min, &max));
}

#[test]
fn invalid_choices_are_disabled() {
    let min = time(0, 0, 0);
    let max = time(23, 59, 59);
    assert!(option_disabled((24, 0, 0, 0), TimePickerFormat::TwentyFourHour, false, &min, &max));
    assert_eq!(emit_choice((24, 0, 0, 0), TimePickerFormat::TwentyFourHour, false, &min, &max), None);
}

#[test]
fn disabled_values_lists_out_of_range_options() {
    let min = time(10, 0, 0);
    let max = time(12, 0, 0);
    let hours = column_values(TimeColumn::Hour, TimePickerFormat::TwentyFourHour, 1, None);
    let disabled = disabled_values(
        &hours,
        None,
        TimePickerFormat::TwentyFourHour,
        false,
        TimeColumn::Hour,
        &min,
        &max,
    );
    let expected: Vec<u32> = (0..24).filter(|h| *h < 10 || *h > 12).collect();
    assert_eq!(disabled, expected);
}

#[test]
fn presets_outside_the_range_are_disabled() {
    let min = time(9, 0, 0);
    let max = time(17, 0, 0);
    assert!(!preset_disabled(&time(12, 0, 0), false, false, &min, &max));
    assert!(preset_disabled(&time(18, 0, 0), false, false, &min, &max));
    assert!(preset_disabled(&time(12, 0, 0), true, false, &min, &max));
    assert!(preset_disabled(&time(12, 0, 0), false, true, &min, &max));
}

#[test]
fn normalize_hex_expands_and_lowercases() {
    assert_eq!(normalize_hex("  #ABC "), Some("aabbcc".to_string()));
    assert_eq!(normalize_hex("12aBcD"), Some("12abcd".to_string()));
    assert_eq!(normalize_hex("#12345"), None);
    assert_eq!(normalize_hex("#ggg"), None);
    assert_eq!(normalize_hex("##abc"), None);
}

#[test]
fn parse_hex_reads_channels() {
    assert_eq!(parse_hex_rgb("#ff8000"), Some((255, 128, 0)));
    assert_eq!(parse_hex_rgb("0F0"), Some((0, 255, 0)));
    assert_eq!(parse_hex_rgb("nope"), None);
}

#[test]
fn format_hex_writes_uppercase_and_round_trips() {
    assert_eq!(format_rgb_hex(255, 128, 0), "#FF8000");
    assert_eq!(format_rgb_hex(1, 2, 3), "#010203");
    for (r, g, b) in [(0u8, 0u8, 0u8), (17, 34, 51), (255, 254, 253)] {
        assert_eq!(parse_hex_rgb(&format_rgb_hex(r, g, b)), Some((r, g, b)));
    }
}

#[test]
fn merge_described_by_orders_and_skips_empty_user_ids() {
    assert_eq!(
        merge_described_by(Some("env-description"), Some("env-error"), None),
        Some("env-description env-error".to_string())
    );
    assert_eq!(
        merge_described_by(Some("d"), None, Some("hint")),
        Some("hint d".to_string())
    );
    assert_eq!(merge_described_by(None, None, Some("")), None);
    assert_eq!(merge_described_by(None, None, None), None);
}

#[test]
fn described_by_builds_suffixed_ids() {
    assert_eq!(
        described_by("dx-select-1", true, true, Some("extra")),
        Some("extra dx-select-1-description dx-select-1-error".to_string())
    );
    assert_eq!(described_by("x", false, false, None), None);
}

#[test]
fn field_text_state_describes_the_control() {
    let state = build_input_field_text_state("env".to_string(), true, true, None);
    assert_eq!(state.id, "env");
    assert_eq!(state.description_id, Some("env-description".to_string()));
    assert_eq!(state.error_id, Some("env-error".to_string()));
    assert_eq!(state.described_by, Some("env-description env-error".to_string()));
    assert!(state.invalid);
    let plain = build_input_field_text_state("name".to_string(), false, false, None);
    assert_eq!(plain.described_by, None);
    assert!(!plain.invalid);
}

fn attr(name: &str, value: FieldAttributeValue) -> FieldAttribute {
    FieldAttribute {
        name: name.to_string(),
        value,
    }
}

#[test]
fn attribute_text_reads_the_first_matching_attribute() {
    let attributes = vec![
        attr("id", FieldAttributeValue::Text("first".to_string())),
        attr("id", FieldAttributeValue::Text("second".to_string())),
        attr("tabindex", FieldAttributeValue::Int(-3)),
        attr("required", FieldAttributeValue::Bool(true)),
        attr("step", FieldAttributeValue::Float("0.5".to_string())),
        attr("onclick", FieldAttributeValue::Other),
    ];
    assert_eq!(attribute_text(&attributes, "id"), Some("first".to_string()));
    assert_eq!(attribute_text(&attributes, "tabindex"), Some("-3".to_string()));
    assert_eq!(attribute_text(&attributes, "required"), Some("true".to_string()));
    assert_eq!(attribute_text(&attributes, "step"), Some("0.5".to_string()));
    assert_eq!(attribute_text(&attributes, "onclick"), None);
    assert_eq!(attribute_text(&attributes, "missing"), None);
}

#[test]
fn attribute_bool_reads_booleans_and_text() {
    let attributes = vec![
        attr("disabled", FieldAttributeValue::Text("false".to_string())),
        attr("readonly", FieldAttributeValue::Text("".to_string())),
        attr("required", FieldAttributeValue::Bool(true)),
        attr("hidden", FieldAttributeValue::Int(1)),
    ];
    assert!(!attribute_bool(&attributes, "disabled"));
    assert!(attribute_bool(&attributes, "readonly"));
    assert!(attribute_bool(&attributes, "required"));
    assert!(!attribute_bool(&attributes, "hidden"));
    assert!(!attribute_bool(&attributes, "missing"));
}

#[test]
fn control_field_prefers_caller_attributes() {
    let attributes = vec![
        attr("id", FieldAttributeValue::Text("email".to_string())),
        attr("aria_describedby", FieldAttributeValue::Text("tip".to_string())),
    ];
    let field = resolve_control_field(
        &attributes,
        "dx-input-0".to_string(),
        Some("prop".to_string()),
        true,
        false,
    );
    assert_eq!(field.input_id, "email");
    assert_eq!(field.user_described_by, Some("tip".to_string()));
    assert_eq!(field.described_by, Some("tip email-description".to_string()));
    assert!(!field.invalid);

    let generated = resolve_control_field(&Vec::new(), "dx-input-0".to_string(), None, false, true);
    assert_eq!(generated.input_id, "dx-input-0");
    assert_eq!(generated.described_by, Some("dx-input-0-error".to_string()));
    assert!(generated.invalid);
}

#[test]
fn append_class_puts_the_class_first() {
    assert_eq!(append_class("  ".to_string(), "dx-event"), "dx-event");
    assert_eq!(append_class(" custom ".to_string(), "dx-event"), "dx-event custom");
}

#[test]
fn password_visibility_follows_owner_and_toggle() {
    let mut state = VisibilityState::new(None, false);
    assert!(!state.shown);
    assert!(state.toggle(None));
    assert!(state.shown);
    assert!(!state.toggle(None));
    assert!(!state.shown);

    let mut controlled = VisibilityState::new(Some(false), true);
    assert!(!controlled.shown);
    assert!(controlled.toggle(Some(false)));
    assert!(!controlled.shown);
    controlled.sync(Some(true));
    assert!(controlled.shown);
    controlled.sync(None);
    assert!(controlled.shown);
    assert_eq!(password_input_type(true), "text");
    assert_eq!(password_input_type(false), "password");
}

#[test]
fn sanitize_keeps_digits_one_decimal_and_a_leading_minus() {
    assert_eq!(sanitize("-1a2.3.4-", true, true, '.'), "-12.34");
    assert_eq!(sanitize("-1,5", true, false, ','), "1,5");
    assert_eq!(sanitize("12.5", false, true, '.'), "125");
}

#[test]
fn format_number_text_groups_thousands() {
    assert_eq!(format_number_text("-1234567.891", ",", " "), "-1 234 567,891");
    assert_eq!(format_number_text("1234", ".", ""), "1234");
    assert_eq!(format_number_text("999", ".", ","), "999");
}

#[test]
fn normalize_number_text_strips_separators() {
    assert_eq!(normalize_number_text("1.234,5", ",", "."), Some("1234.5".to_string()));
    assert_eq!(normalize_number_text("-", ".", ","), None);
    assert_eq!(normalize_number_text("", ".", ","), None);
}

#[test]
fn variants_render_their_attribute_values() {
    assert_eq!(InputVariant::Filled.as_str(), "filled");
    assert_eq!(InputSize::default().as_str(), "md");
    assert_eq!(InputRadius::Pill.as_str(), "pill");
    assert_eq!(AlertVariant::Destructive.class(), "destructive");
    assert_eq!(BadgeVariant::default().class(), "primary");
    assert_eq!(TabsVariant::GhostStyle.as_str(), "ghost");
    assert_eq!(TextareaVariant::GhostStyle.class(), "ghost");
    assert_eq!(SidebarCollapsible::NoCollapse.as_str(), "none");
    assert_eq!(TypographyTone::SurfaceMuted.as_str(), "surface-muted");
    assert_eq!(HeadingLevel::default().as_str(), "h2");
}

#[test]
fn sidebar_trigger_flips_the_right_state() {
    assert_eq!(sidebar_state(true), SidebarState::Expanded);
    assert_eq!(sidebar_state(false), SidebarState::Collapsed);
    let mobile = sidebar_toggle(true, true, false);
    assert_eq!(mobile.open_mobile, Some(true));
    assert_eq!(mobile.request_open, None);
    let desktop = sidebar_toggle(false, true, false);
    assert_eq!(desktop.open_mobile, None);
    assert_eq!(desktop.request_open, Some(false));
}

#[test]
fn time_input_sections_follow_the_mode() {
    assert_eq!(time_input_sections(true, TimeInputClearSectionMode::Both, true), (true, true));
    assert_eq!(time_input_sections(true, TimeInputClearSectionMode::Clear, true), (true, false));
    assert_eq!(
        time_input_sections(true, TimeInputClearSectionMode::RightSection, true),
        (false, true)
    );
    assert_eq!(time_input_sections(false, TimeInputClearSectionMode::default(), false), (false, false));
}

#[test]
fn typography_extras_render_clamp_values() {
    let clamped = typography_extras(true, Some(3));
    assert_eq!(clamped.data_truncate, "true");
    assert_eq!(clamped.data_line_clamp, Some("3".to_string()));
    assert_eq!(clamped.style, Some("--line-clamp: 3;".to_string()));
    let plain = typography_extras(false, None);
    assert_eq!(plain.data_truncate, "false");
    assert_eq!(plain.data_line_clamp, None);
    assert_eq!(plain.style, None);
}

#[test]
fn incomplete_number_text_has_no_value() {
    assert_eq!(normalize_number_text("1.", ".", ""), None);
    assert_eq!(normalize_number_text("-1,", ",", "."), None);
    assert_eq!(normalize_number_text("1.5", ".", ""), Some("1.5".to_string()));
}

#[test]
fn blur_completes_a_trailing_separator_and_clears_a_lone_minus() {
    assert_eq!(blur_number_text("1.", ".", ""), Some("1".to_string()));
    assert_eq!(blur_number_text("1.234,", ",", "."), Some("1234".to_string()));
    assert_eq!(blur_number_text("-", ".", ""), None);
    assert!(blur_clears(" - "));
    assert!(blur_clears("  "));
    assert!(!blur_clears("abc"));
}

#[test]
fn shown_number_text_reads_back_as_its_plain_text() {
    for raw in ["-1234567.891", "0", "12", "1000", "-5.25"] {
        for (ds, ts) in [(",", " "), (".", ","), (".", ""), (",", ".")] {
            let shown = format_number_text(raw, ds, ts);
            assert_eq!(normalize_number_text(&shown, ds, ts), Some(raw.to_string()));
        }
    }
}
