use cool_organizer::{Date, Task, TasksManager};

fn with_colors(mut m: TasksManager) -> TasksManager {
    m.colors.default = String::from("d");
    m.colors.category = String::from("c");
    m.colors.done = String::from("x");
    m.colors.prio_1 = String::from("p1");
    m.colors.prio_2 = String::from("p2");
    m.colors.prio_3 = String::from("p3");
    m.colors.sub_category = None;
    m
}

#[test]
fn default_is_empty_with_disabled_horizon() {
    let m = TasksManager::default();
    assert!(m.tasks.is_empty());
    assert_eq!(m.colors.default, "");
    assert_eq!(m.colors.category, "");
    assert_eq!(m.colors.done, "");
    assert_eq!(m.colors.prio_1, "");
    assert_eq!(m.colors.prio_2, "");
    assert_eq!(m.colors.prio_3, "");
    assert_eq!(m.colors.show_days_forward, -1);
    assert_eq!(m.colors.sub_category, Some(String::new()));
}

#[test]
fn add_and_remove_tasks() {
    let mut m = TasksManager::default();
    m.add_task(Task::new("a"));
    m.add_task(Task::new("b"));
    m.add_task(Task::new("c"));
    assert_eq!(m.tasks.len(), 3);
    m.remove_task(1);
    assert_eq!(m.tasks.len(), 2);
    assert_eq!(m.tasks[0].name, "a");
    assert_eq!(m.tasks[1].name, "c");
    // out of range: silently ignored
    m.remove_task(5);
    assert_eq!(m.tasks.len(), 2);
}

#[test]
fn remove_done_keeps_pending_overdue() {
    let today = Date::ymd(2021, 100);
    let mut m = TasksManager::default();
    m.add_task(
        Task::new("done and overdue")
            .done(true)
            .due(Some(Date::ymd(2021, 90))),
    );
    m.add_task(Task::new("done without date").done(true));
    m.add_task(Task::new("pending overdue").due(Some(Date::ymd(2021, 90))));
    m.remove_done_on(today);
    assert_eq!(m.tasks.len(), 1);
    assert_eq!(m.tasks[0].name, "pending overdue");
}

#[test]
fn remove_done_keeps_done_future_tasks() {
    let today = Date::ymd(2021, 100);
    let mut m = TasksManager::default();
    m.add_task(
        Task::new("done but ahead")
            .done(true)
            .due(Some(Date::ymd(2021, 105))),
    );
    m.add_task(
        Task::new("done for today")
            .done(true)
            .due(Some(Date::ymd(2021, 100))),
    );
    m.remove_done_on(today);
    assert_eq!(m.tasks.len(), 2);
}

#[test]
fn categories_first_seen_order() {
    let mut m = TasksManager::default();
    m.add_task(Task::new("a").category("Work"));
    m.add_task(Task::new("b"));
    m.add_task(Task::new("c").category("Home"));
    m.add_task(Task::new("d").category("Work"));
    let cats = m.get_categories();
    assert_eq!(*cats, vec!["Work".to_string(), "".to_string(), "Home".to_string()]);
}

#[test]
fn tasks_list_numbers_in_storage_order() {
    let today = Date::ymd(2021, 100);
    let mut m = TasksManager::default();
    m.add_task(Task::new("a").category("Work").due(Some(Date::ymd(2021, 103))));
    m.add_task(Task::new("b"));
    assert_eq!(
        m.tasks_list_on(today),
        "0(Work) - a - due in 3 days for 13/4\n1() - b\n"
    );
}

#[test]
fn report_headers_and_category_order() {
    let today = Date::ymd(2021, 100);
    let mut m = with_colors(TasksManager::default());
    m.add_task(Task::new("a").category("Work").due(Some(Date::ymd(2021, 103))));
    m.add_task(Task::new("b").due(Some(Date::ymd(2021, 101))));
    // the empty category sorts first and gets no header; Work gets one
    assert_eq!(
        m.full_print_on(today),
        " ${d}- b${alignr} - due in 1 days for 11/4\n\n\
         ${c}Work:\n ${d}- a${alignr} - due in 3 days for 13/4\n\n"
    );
}

#[test]
fn report_sorts_descending_remaining_days() {
    let today = Date::ymd(2021, 100);
    let mut m = with_colors(TasksManager::default());
    m.add_task(Task::new("near").category("W").due(Some(Date::ymd(2021, 101))));
    m.add_task(Task::new("far").category("W").due(Some(Date::ymd(2021, 110))));
    m.add_task(Task::new("mid").category("W").due(Some(Date::ymd(2021, 105))));
    assert_eq!(
        m.full_print_on(today),
        "${c}W:\n \
         ${d}- far${alignr} - due in 10 days for 20/4\n \
         ${d}- mid${alignr} - due in 5 days for 15/4\n \
         ${d}- near${alignr} - due in 1 days for 11/4\n\n"
    );
}

#[test]
fn report_skips_empty_groups_entirely() {
    let today = Date::ymd(2021, 100);
    let mut m = with_colors(TasksManager::default());
    // every task of this category is hidden, so no header appears at all
    m.add_task(Task::new("stale").category("Old").due(Some(Date::ymd(2021, 50))));
    m.add_task(Task::new("undated").category("Old"));
    m.add_task(Task::new("live").category("W").due(Some(Date::ymd(2021, 102))));
    assert_eq!(
        m.full_print_on(today),
        "${c}W:\n ${d}- live${alignr} - due in 2 days for 12/4\n\n"
    );
}

#[test]
fn report_respects_horizon() {
    let today = Date::ymd(2021, 100);
    let mut m = with_colors(TasksManager::default());
    m.colors.show_days_forward = 5;
    m.add_task(Task::new("far").category("W").due(Some(Date::ymd(2021, 106))));
    m.add_task(Task::new("near").category("W").due(Some(Date::ymd(2021, 105))));
    assert_eq!(
        m.full_print_on(today),
        "${c}W:\n ${d}- near${alignr} - due in 5 days for 15/4\n\n"
    );
}

#[test]
fn report_priority_colors() {
    let today = Date::ymd(2021, 100);
    let mut m = with_colors(TasksManager::default());
    m.add_task(
        Task::new("urgent")
            .category("W")
            .priority(3)
            .due(Some(Date::ymd(2021, 101))),
    );
    m.add_task(
        Task::new("calm")
            .category("W")
            .priority(1)
            .due(Some(Date::ymd(2021, 103))),
    );
    assert_eq!(
        m.full_print_on(today),
        "${c}W:\n \
         ${p1}- calm${alignr} - due in 3 days for 13/4\n \
         ${p3}- urgent${alignr} - due in 1 days for 11/4\n\n"
    );
}

#[test]
fn report_empty_collection_is_empty() {
    let today = Date::ymd(2021, 100);
    let m = with_colors(TasksManager::default());
    assert_eq!(m.full_print_on(today), "");
}

#[test]
fn report_ties_show_later_insertion_first() {
    let today = Date::ymd(2021, 100);
    let mut m = with_colors(TasksManager::default());
    m.add_task(Task::new("first").category("W").due(Some(Date::ymd(2021, 103))));
    m.add_task(Task::new("second").category("W").due(Some(Date::ymd(2021, 103))));
    assert_eq!(
        m.full_print_on(today),
        "${c}W:\n \
         ${d}- second${alignr} - due in 3 days for 13/4\n \
         ${d}- first${alignr} - due in 3 days for 13/4\n\n"
    );
}
