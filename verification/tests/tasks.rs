use cool_organizer::{Date, FormatParams, Task};

fn colors() -> FormatParams {
    FormatParams {
        default: String::from("d"),
        category: String::from("c"),
        done: String::from("x"),
        prio_1: String::from("p1"),
        prio_2: String::from("p2"),
        prio_3: String::from("p3"),
        show_days_forward: -1,
        sub_category: Some(String::from("s")),
    }
}

#[test]
fn builders_set_one_field_each() {
    let t = Task::new("call home");
    assert_eq!(t.name, "call home");
    assert_eq!(t.category, "");
    assert_eq!(t.sub_category, "");
    assert_eq!(t.priority, 0);
    assert!(!t.done);
    assert!(t.due.is_none());

    let t = t
        .category("family")
        .sub_category("phone")
        .priority(2)
        .done(true)
        .due(Some(Date::ymd(2021, 79)));
    assert_eq!(t.name, "call home");
    assert_eq!(t.category, "family");
    assert_eq!(t.sub_category, "phone");
    assert_eq!(t.priority, 2);
    assert!(t.done);
    assert_eq!(t.due, Some(Date { year: 2021, day: 79 }));
}

#[test]
fn plain_rendering_future_due() {
    let today = Date::ymd(2021, 100);
    let t = Task::new("write report").due(Some(Date::ymd(2021, 103)));
    assert_eq!(
        t.formatted_on(true, today),
        "- write report - due in 3 days for 13/4"
    );
}

#[test]
fn plain_rendering_due_today_and_done() {
    let today = Date::ymd(2021, 101);
    let t = Task::new("water plants")
        .done(true)
        .due(Some(Date::ymd(2021, 101)));
    assert_eq!(
        t.formatted_on(true, today),
        "- [x] water plants - due for today 11/4"
    );
}

#[test]
fn plain_rendering_overdue() {
    let today = Date::ymd(2021, 100);
    let t = Task::new("pay rent").due(Some(Date::ymd(2021, 90)));
    assert_eq!(
        t.formatted_on(true, today),
        "- pay rent - due in -10 days for 31/3"
    );
}

#[test]
fn plain_rendering_trims_sub_category() {
    let today = Date::ymd(2021, 100);
    let t = Task::new("shop").sub_category("  errands  ");
    assert_eq!(t.formatted_on(true, today), "- shop (errands)");
    // the sub-category is left out when not asked for
    assert_eq!(t.formatted_on(false, today), "- shop");
}

#[test]
fn annotated_hides_overdue_whatever_the_flags() {
    let today = Date::ymd(2021, 100);
    let c = colors();
    let overdue = Some(Date::ymd(2021, 90));
    assert_eq!(
        Task::new("a").due(overdue).formatted_conky_on(&c, true, today),
        ""
    );
    assert_eq!(
        Task::new("a")
            .priority(3)
            .due(overdue)
            .formatted_conky_on(&c, true, today),
        ""
    );
    assert_eq!(
        Task::new("a")
            .done(true)
            .due(overdue)
            .formatted_conky_on(&c, true, today),
        ""
    );
    // an undated task counts as -1 remaining days and is hidden too
    assert_eq!(Task::new("a").formatted_conky_on(&c, true, today), "");
}

#[test]
fn annotated_horizon_cutoff() {
    let today = Date::ymd(2021, 100);
    let mut c = colors();
    c.show_days_forward = 5;
    let six_ahead = Task::new("far").due(Some(Date::ymd(2021, 106)));
    assert_eq!(six_ahead.formatted_conky_on(&c, true, today), "");
    let five_ahead = Task::new("near").due(Some(Date::ymd(2021, 105)));
    assert_ne!(five_ahead.formatted_conky_on(&c, true, today), "");
}

#[test]
fn annotated_rendering_full_line() {
    let today = Date::ymd(2021, 100);
    let c = colors();
    let t = Task::new("write report")
        .sub_category(" draft ")
        .priority(2)
        .due(Some(Date::ymd(2021, 103)));
    assert_eq!(
        t.formatted_conky_on(&c, true, today),
        "${p2}- write report (${s}draft${p2})${alignr} - due in 3 days for 13/4"
    );
}

#[test]
fn annotated_rendering_done_color_and_today_clause() {
    let today = Date::ymd(2021, 101);
    let c = colors();
    let t = Task::new("water plants")
        .done(true)
        .priority(1)
        .due(Some(Date::ymd(2021, 101)));
    assert_eq!(
        t.formatted_conky_on(&c, true, today),
        "${x}- water plants${alignr} - due for today      11/4"
    );
}

#[test]
fn annotated_sub_token_falls_back_to_default() {
    let today = Date::ymd(2021, 100);
    let mut c = colors();
    c.sub_category = None;
    let t = Task::new("shop")
        .sub_category("errands")
        .due(Some(Date::ymd(2021, 102)));
    assert_eq!(
        t.formatted_conky_on(&c, true, today),
        "${d}- shop (${d}errands${d})${alignr} - due in 2 days for 12/4"
    );
}

#[test]
fn days_key_uses_minus_one_for_undated() {
    let today = Date::ymd(2021, 100);
    assert_eq!(Task::new("a").days_key_on(today), -1);
    assert_eq!(
        Task::new("a").due(Some(Date::ymd(2021, 104))).days_key_on(today),
        4
    );
}

#[test]
fn days_remianing_none_without_due_date() {
    assert_eq!(Task::new("a").days_remianing(), None);
    assert!(Task::new("a")
        .due(Some(Date::ymd(2021, 104)))
        .days_remianing()
        .is_some());
}
