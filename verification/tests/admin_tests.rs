use salmon::behavior::admin::{
    admin_lookup_done, admin_step, parse_u64, usage_no_user, usage_user, AdminSessions,
    AdminState, AdminStep, STAGE_PROMPT, USAGE_START,
};
use salmon::vkapi::users::VkUser;

fn frog() -> VkUser {
    VkUser {
        id: 1,
        screen_name: "michiganjfrog".to_string(),
        first_name: "Hello".to_string(),
        last_name: "My Baby".to_string(),
    }
}

#[test]
fn idle_plain_text_shows_usage() {
    match admin_step(AdminState::Idle, "hello", 3) {
        AdminStep::Done { reply, next, set_stage } => {
            assert_eq!(reply, USAGE_START);
            assert_eq!(next, AdminState::Idle);
            assert_eq!(set_stage, None);
        }
        other => panic!("unexpected step {:?}", other),
    }
}

#[test]
fn idle_link_asks_for_lookup_without_trailing_slashes() {
    match admin_step(AdminState::Idle, "vk.com/michiganjfrog//", 3) {
        AdminStep::Lookup { name } => assert_eq!(name, "michiganjfrog"),
        other => panic!("unexpected step {:?}", other),
    }
}

#[test]
fn lookup_found_enters_editing() {
    let (reply, next) = admin_lookup_done("michiganjfrog", Some(frog()));
    assert_eq!(reply, usage_user(&frog()));
    assert_eq!(next, AdminState::EditUser(frog()));
    assert!(reply.starts_with("Hello My Baby (@michiganjfrog, id 1)"));
}

#[test]
fn lookup_missing_reprompts() {
    let (reply, next) = admin_lookup_done("wednesdayfrog", None);
    assert_eq!(reply, usage_no_user("wednesdayfrog"));
    assert!(reply.contains("wednesdayfrog"));
    assert!(reply.ends_with(USAGE_START));
    assert_eq!(next, AdminState::Idle);
}

#[test]
fn editing_cancel_returns_to_idle() {
    match admin_step(AdminState::EditUser(frog()), " Отмена ", 3) {
        AdminStep::Done { reply, next, set_stage } => {
            assert_eq!(reply, USAGE_START);
            assert_eq!(next, AdminState::Idle);
            assert_eq!(set_stage, None);
        }
        other => panic!("unexpected step {:?}", other),
    }
}

#[test]
fn editing_stage_command_stores_zero_based_stage() {
    match admin_step(AdminState::EditUser(frog()), "Этап 2", 3) {
        AdminStep::Done { reply, next, set_stage } => {
            assert_eq!(reply, "Hello My Baby (@michiganjfrog, id 1) теперь на этапе 2");
            assert_eq!(next, AdminState::Idle);
            assert_eq!(set_stage, Some((1, 1)));
        }
        other => panic!("unexpected step {:?}", other),
    }
}

#[test]
fn editing_stage_out_of_range_reprompts() {
    match admin_step(AdminState::EditUser(frog()), "этап 4", 3) {
        AdminStep::Done { reply, next, set_stage } => {
            assert_eq!(reply, STAGE_PROMPT);
            assert_eq!(next, AdminState::EditUser(frog()));
            assert_eq!(set_stage, None);
        }
        other => panic!("unexpected step {:?}", other),
    }
}

#[test]
fn editing_garbled_number_reprompts() {
    match admin_step(AdminState::EditUser(frog()), "этап два", 3) {
        AdminStep::Done { reply, next, set_stage } => {
            assert_eq!(reply, STAGE_PROMPT);
            assert_eq!(next, AdminState::EditUser(frog()));
            assert_eq!(set_stage, None);
        }
        other => panic!("unexpected step {:?}", other),
    }
}

#[test]
fn editing_other_text_shows_editing_usage() {
    match admin_step(AdminState::EditUser(frog()), "what now", 3) {
        AdminStep::Done { reply, next, set_stage } => {
            assert_eq!(reply, usage_user(&frog()));
            assert_eq!(next, AdminState::EditUser(frog()));
            assert_eq!(set_stage, None);
        }
        other => panic!("unexpected step {:?}", other),
    }
}

#[test]
fn parse_u64_accepts_digits_and_plus() {
    assert_eq!(parse_u64("0"), Some(0));
    assert_eq!(parse_u64("42"), Some(42));
    assert_eq!(parse_u64("+42"), Some(42));
    assert_eq!(parse_u64("18446744073709551615"), Some(u64::MAX));
    assert_eq!(parse_u64("18446744073709551616"), None);
    assert_eq!(parse_u64(""), None);
    assert_eq!(parse_u64("+"), None);
    assert_eq!(parse_u64("-1"), None);
    assert_eq!(parse_u64("4x"), None);
}

#[test]
fn sessions_remember_state_per_admin() {
    let mut sessions = AdminSessions::new();
    assert_eq!(sessions.get_state(1), AdminState::Idle);
    sessions.set_state(1, AdminState::EditUser(frog()));
    assert_eq!(sessions.get_state(1), AdminState::EditUser(frog()));
    assert_eq!(sessions.get_state(2), AdminState::Idle);
    sessions.set_state(1, AdminState::Idle);
    assert_eq!(sessions.get_state(1), AdminState::Idle);
}
