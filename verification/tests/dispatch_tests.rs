use botcore::dispatch::Dispatcher;
use botcore::dispatch::TaskTermination;
use botcore::dispatch::callback_report;
use botcore::dispatch::command_report;
use botcore::dispatch::command_payload;
use botcore::dispatch::normalize_command;
use botcore::types::CallbackQuery;
use botcore::types::Chat;
use botcore::types::Message;
use botcore::types::User;

fn message_with(text: Option<&str>) -> Message {
    Message {
        message_id: 1,
        text: text.map(|t| t.to_string()),
        chat: Chat {
            id: 99,
            kind: None,
            username: None,
            first_name: None,
            last_name: None,
        },
        from: Some(User {
            id: 7,
            is_bot: false,
            first_name: "Ada".to_string(),
            username: None,
        }),
        contact: None,
    }
}

#[test]
fn echo_scenario_routes_and_passes_payload() {
    let mut d = Dispatcher::new();
    let echo_handler = 11u64;
    d.add_command("echo", echo_handler);
    let msg = message_with(Some("/echo hello world"));
    let plan = d.dispatch(&msg);
    assert_eq!(plan.command.as_deref(), Some("echo"));
    assert_eq!(plan.handlers, vec![echo_handler]);
    // The handler is invoked with the text after the command token,
    // unmodified.
    assert_eq!(command_payload("/echo hello world"), "hello world");
}

#[test]
fn payload_is_unmodified() {
    assert_eq!(command_payload("/echo  spaced   out "), " spaced   out ");
    assert_eq!(command_payload("/ping"), "");
    assert_eq!(command_payload(""), "");
}

#[test]
fn unregistered_command_plans_nothing() {
    let mut d = Dispatcher::new();
    d.add_command("ping", 1);
    let plan = d.dispatch(&message_with(Some("/missing")));
    assert_eq!(plan.command.as_deref(), Some("missing"));
    assert!(plan.handlers.is_empty());
}

#[test]
fn non_command_text_plans_nothing() {
    let d = Dispatcher::new();
    assert!(d.dispatch(&message_with(Some("hello"))).handlers.is_empty());
    assert!(d.dispatch(&message_with(Some(""))).handlers.is_empty());
    assert!(d.dispatch(&message_with(None)).handlers.is_empty());
}

#[test]
fn registration_order_is_kept() {
    let mut d = Dispatcher::new();
    d.add_command("stats", 4);
    d.add_command("/stats", 2);
    d.add_command("stats", 9);
    let plan = d.dispatch(&message_with(Some("/stats now")));
    assert_eq!(plan.handlers, vec![4, 2, 9]);
}

#[test]
fn marker_is_stripped_for_lookup() {
    let mut d = Dispatcher::new();
    d.add_command("//help", 5);
    assert_eq!(d.lookup("help"), vec![5]);
    assert_eq!(normalize_command("///a"), "a");
    assert_eq!(normalize_command("plain"), "plain");
    assert_eq!(normalize_command("///"), "");
}

#[test]
fn command_name_is_case_sensitive() {
    let mut d = Dispatcher::new();
    d.add_command("Help", 3);
    assert!(d.lookup("help").is_empty());
    assert_eq!(d.lookup("Help"), vec![3]);
}

#[test]
fn callbacks_catch_every_button_press() {
    let mut d = Dispatcher::new();
    d.add_callback(21);
    d.add_callback(22);
    let cb = CallbackQuery {
        id: "q1".to_string(),
        from: User {
            id: 7,
            is_bot: false,
            first_name: "Ada".to_string(),
            username: None,
        },
        message: None,
        data: Some("echo Hello from button".to_string()),
    };
    assert_eq!(d.dispatch_callback(&cb), vec![21, 22]);
}

#[test]
fn failure_and_fault_reported_independently() {
    let admin = Some(1234);
    let failed = TaskTermination::Failed("api error: chat not found".to_string());
    let panicked = TaskTermination::Panicked("index out of bounds".to_string());
    let done = TaskTermination::Completed;

    let n1 = command_report(admin, "echo", &failed).expect("error must be reported");
    assert_eq!(n1.chat_id, 1234);
    assert_eq!(n1.text, "Handler error for command '/echo': api error: chat not found");

    let n2 = command_report(admin, "echo", &panicked).expect("fault must be reported");
    assert_eq!(n2.chat_id, 1234);
    assert_eq!(n2.text, "Handler panicked for command '/echo': index out of bounds");

    assert!(command_report(admin, "echo", &done).is_none());
}

#[test]
fn no_admin_swallows_reports() {
    let failed = TaskTermination::Failed("boom".to_string());
    assert!(command_report(None, "echo", &failed).is_none());
    assert!(callback_report(None, &failed).is_none());
}

#[test]
fn callback_reports() {
    let admin = Some(8);
    let n = callback_report(admin, &TaskTermination::Failed("boom".to_string())).expect("reported");
    assert_eq!(n.text, "Callback handler error: boom");
    let n2 =
        callback_report(admin, &TaskTermination::Panicked("boom".to_string())).expect("reported");
    assert_eq!(n2.text, "Callback handler panicked: boom");
    assert!(callback_report(admin, &TaskTermination::Completed).is_none());
}

#[test]
fn configuration_is_readable() {
    let mut d = Dispatcher::new();
    assert_eq!(d.concurrency_limit(), None);
    assert_eq!(d.admin(), None);
    d.set_concurrency_limit(4);
    d.set_admin(Some(-3));
    assert_eq!(d.concurrency_limit(), Some(4));
    assert_eq!(d.admin(), Some(-3));
}

#[test]
fn whitespace_variants_delimit_the_command_token() {
    let mut d = Dispatcher::new();
    d.add_command("echo", 1);
    let plan = d.dispatch(&message_with(Some("/echo\tx")));
    assert_eq!(plan.command.as_deref(), Some("echo"));
    assert_eq!(plan.handlers, vec![1]);
}
