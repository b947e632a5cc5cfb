use webspeak::network::profile::ValidatedProfile;
use webspeak::network::provider::Provider;
use webspeak::network::rotation::activate_existing_provider_selection;
use webspeak::network::rotation::continue_rotation;
use webspeak::network::rotation::recreate_direct_stack;
use webspeak::network::rotation::rotate_profile;
use webspeak::network::rotation::rotate_provider;
use webspeak::network::rotation::rotate_to_provider;
use webspeak::network::rotation::unsupported_provider_response;
use webspeak::network::rotation::Choice;
use webspeak::network::rotation::Rotation;
use webspeak::network::rotation::RotationEvent;
use webspeak::network::rotation::RotationResponse;
use webspeak::network::selection::choose_next_profile;
use webspeak::network::selection::shuffle_size;
use webspeak::network::selection::ProfileSelection;
use webspeak::network::shuffle::draw_bounds;
use webspeak::network::shuffle::random_index;
use webspeak::network::shuffle::secure_shuffle;
use webspeak::network::stack::check_link;
use webspeak::network::stack::check_removal;
use webspeak::network::stack::check_source;
use webspeak::network::stack::compose_down_arguments;
use webspeak::network::stack::compose_result;
use webspeak::network::stack::compose_up_arguments;
use webspeak::network::stack::provider_links;
use webspeak::network::stack::recreate_stack;
use webspeak::network::stack::wait_for_safe_vpn;
use webspeak::network::stack::ComposeExit;
use webspeak::network::stack::ComposeVerb;
use webspeak::network::stack::Removal;
use webspeak::network::stack::StackPhase;
use webspeak::network::stack::Verification;
use webspeak::network::stack::VERIFICATION_ATTEMPTS;
use webspeak::network::state::RotationState;
use webspeak::network::status::load_active_profile;

fn profile(name: &str) -> ValidatedProfile {
    ValidatedProfile {
        basename: name.to_string(),
        path: format!("/p/{name}"),
        endpoint_hostname: None,
    }
}

fn profiles(names: &[&str]) -> Result<Vec<ValidatedProfile>, String> {
    Ok(names.iter().map(|n| profile(n)).collect())
}

fn select_next(
    found: &Result<Vec<ValidatedProfile>, String>,
    state: RotationState,
    draw: usize,
) -> ProfileSelection {
    let state = Ok(state);
    let size = shuffle_size(Provider::NordVpn, found, &state);
    let draws = draw_bounds(size).into_iter().map(|b| draw % b).collect();
    choose_next_profile(Provider::NordVpn, found, state, &Ok(draws)).ok().unwrap()
}

fn done(phase: Rotation) -> RotationResponse {
    match phase {
        Rotation::Done(r) => r,
        _ => panic!("the switch goes on"),
    }
}

fn selection() -> ProfileSelection {
    ProfileSelection {
        profile: profile("a.conf"),
        proposed_state: RotationState::default(),
    }
}

#[test]
fn a_cycle_takes_every_profile_once_and_none_twice_in_a_row() {
    let found = profiles(&["a", "b", "c", "d"]);
    for draw in 0..7 {
        let mut state = RotationState::default();
        let mut last = String::new();
        for _ in 0..5 {
            let mut taken = Vec::new();
            for _ in 0..4 {
                let s = select_next(&found, state, draw);
                assert_ne!(s.profile.basename, last);
                last = s.profile.basename.clone();
                taken.push(s.profile.basename);
                state = s.proposed_state;
            }
            taken.sort();
            assert_eq!(taken, vec!["a", "b", "c", "d"]);
        }
    }
}

#[test]
fn selection_leaves_the_other_provider_alone() {
    let mut state = RotationState::default();
    state.protonvpn.active_profile = Some("p".to_string());
    let s = select_next(&profiles(&["a"]), state, 0);
    assert_eq!(s.profile.basename, "a");
    assert_eq!(s.proposed_state.nordvpn.active_profile.as_deref(), Some("a"));
    assert_eq!(s.proposed_state.nordvpn.last_profile.as_deref(), Some("a"));
    assert!(s.proposed_state.nordvpn.remaining_profiles.is_empty());
    assert_eq!(s.proposed_state.nordvpn.cycle_profiles, vec!["a".to_string()]);
    assert_eq!(s.proposed_state.protonvpn.active_profile.as_deref(), Some("p"));
}

#[test]
fn selected_profile_is_found_again() {
    let found = profiles(&["a", "b", "c"]);
    let s = select_next(&found, RotationState::default(), 1);
    let name = s.profile.basename.clone();
    let state = Ok(s.proposed_state);
    let again = load_active_profile(Provider::NordVpn, &state, &found).ok().unwrap().unwrap();
    assert_eq!(again.basename, name);
    assert_eq!(again.path, format!("/p/{name}"));
    let others: Vec<&str> = ["a", "b", "c"].into_iter().filter(|n| *n != name).collect();
    let lost = load_active_profile(Provider::NordVpn, &state, &profiles(&others));
    assert!(lost.ok().unwrap().is_none());
}

#[test]
fn within_a_cycle_the_next_waiting_profile_is_taken() {
    let mut state = RotationState::default();
    state.nordvpn.active_profile = Some("a".to_string());
    state.nordvpn.last_profile = Some("a".to_string());
    state.nordvpn.remaining_profiles = vec!["c".to_string(), "b".to_string()];
    state.nordvpn.cycle_profiles = vec!["a".to_string(), "b".to_string(), "c".to_string()];
    let found = profiles(&["a", "b", "c"]);
    let state = Ok(state);
    assert_eq!(shuffle_size(Provider::NordVpn, &found, &state), 0);
    let s = choose_next_profile(Provider::NordVpn, &found, state, &Err("unused".to_string()))
        .ok()
        .unwrap();
    assert_eq!(s.profile.basename, "b");
    assert_eq!(s.proposed_state.nordvpn.remaining_profiles, vec!["c".to_string()]);
}

#[test]
fn new_profile_joins_the_cycle_and_lost_ones_leave_it() {
    let mut state = RotationState::default();
    state.nordvpn.active_profile = Some("gone".to_string());
    state.nordvpn.last_profile = Some("gone".to_string());
    state.nordvpn.remaining_profiles = vec!["gone2".to_string()];
    state.nordvpn.cycle_profiles = vec!["gone".to_string(), "gone2".to_string()];
    let s = select_next(&profiles(&["new"]), state, 0);
    assert_eq!(s.profile.basename, "new");
    assert_eq!(s.proposed_state.nordvpn.cycle_profiles, vec!["new".to_string()]);
}

#[test]
fn selection_refusals() {
    let state = || Ok(RotationState::default());
    let draws = Ok(Vec::new());
    assert_eq!(
        choose_next_profile(Provider::Direct, &profiles(&["a"]), state(), &draws).err().unwrap(),
        "Direct mode has no profile settings"
    );
    assert_eq!(
        choose_next_profile(Provider::NordVpn, &Err("no dir".to_string()), state(), &draws)
            .err()
            .unwrap(),
        "no dir"
    );
    assert_eq!(
        choose_next_profile(Provider::NordVpn, &profiles(&[]), Err("bad".to_string()), &draws)
            .err()
            .unwrap(),
        "no valid WireGuard profiles were found"
    );
    assert_eq!(
        choose_next_profile(Provider::NordVpn, &profiles(&["a"]), Err("bad".to_string()), &draws)
            .err()
            .unwrap(),
        "bad"
    );
    assert_eq!(
        choose_next_profile(
            Provider::NordVpn,
            &profiles(&["a", "b"]),
            state(),
            &Err("no randomness".to_string())
        )
        .err()
        .unwrap(),
        "no randomness"
    );
}

#[test]
fn shuffles_follow_the_draws() {
    let mut items = vec![1, 2, 3, 4];
    assert_eq!(draw_bounds(4), vec![4, 3, 2]);
    secure_shuffle(&mut items, &vec![0, 0, 0]);
    assert_eq!(items, vec![2, 3, 4, 1]);
    let mut same = vec![1, 2, 3];
    secure_shuffle(&mut same, &vec![2, 1]);
    assert_eq!(same, vec![1, 2, 3]);
    assert!(draw_bounds(1).is_empty());
    assert!(draw_bounds(0).is_empty());
}

#[test]
fn different_draws_give_different_orders() {
    let mut seen: Vec<Vec<u8>> = Vec::new();
    for a in 0..3 {
        for b in 0..2 {
            let mut items = vec![1u8, 2, 3];
            secure_shuffle(&mut items, &vec![a, b]);
            assert!(!seen.contains(&items));
            seen.push(items);
        }
    }
    assert_eq!(seen.len(), 6);
}

#[test]
fn random_words_become_fair_indices() {
    assert_eq!(random_index(7, 3), Some(1));
    assert_eq!(random_index(u64::MAX, 3), None);
    assert_eq!(random_index(u64::MAX - 1, 3), Some(2));
    assert_eq!(random_index(u64::MAX, 2), None);
    assert_eq!(random_index(u64::MAX - 1, 2), None);
    assert_eq!(random_index(u64::MAX - 2, 2), Some(1));
    assert_eq!(random_index(u64::MAX - 1, 1), Some(0));
}

#[test]
fn requests_name_a_provider() {
    assert_eq!(
        unsupported_provider_response("x").message,
        "Unsupported provider: x"
    );
    assert!(matches!(rotate_provider("Direct"), Ok(Provider::Direct)));
    let refused = rotate_provider("mullvad").err().unwrap();
    assert!(!refused.success);
    assert_eq!(refused.message, "Unsupported provider: mullvad");
    assert!(matches!(rotate_profile("nordvpn"), Ok(Provider::NordVpn)));
    assert_eq!(
        rotate_profile("direct").err().unwrap().message,
        "Direct mode has no VPN profiles to rotate."
    );
    assert_eq!(
        rotate_profile("?").err().unwrap().message,
        "Unsupported provider: ?"
    );
}

#[test]
fn provider_in_use_is_left_alone() {
    let r = done(rotate_to_provider(Provider::NordVpn, false, Some(Provider::NordVpn)));
    assert!(r.success);
    assert_eq!(r.message, "Already connected via NordVPN");
}

#[test]
fn direct_switch_needs_no_verification() {
    let phase = rotate_to_provider(Provider::Direct, false, Some(Provider::NordVpn));
    assert!(matches!(
        phase,
        Rotation::Recreating { choice: Choice::Static, overlay: None }
    ));
    let r = done(continue_rotation(
        Provider::Direct,
        phase,
        RotationEvent::Recreated(Ok(())),
    ));
    assert!(r.success);
    assert_eq!(r.message, "Switched to Direct");
    assert_eq!(
        recreate_direct_stack(&Err("x".to_string())).message,
        "Network rotation failed: x"
    );
}

#[test]
fn plain_switch_reuses_the_saved_profile() {
    let phase = rotate_to_provider(Provider::NordVpn, false, Some(Provider::Direct));
    assert!(matches!(phase, Rotation::Loading));
    let phase = continue_rotation(
        Provider::NordVpn,
        phase,
        RotationEvent::Loaded(Ok(Some(profile("a.conf")))),
    );
    assert!(matches!(phase, Rotation::Preparing(Choice::Saved(_))));
    let phase = continue_rotation(
        Provider::NordVpn,
        phase,
        RotationEvent::Written(Ok("/run/o.yml".to_string())),
    );
    assert!(matches!(&phase, Rotation::Recreating { overlay: Some(p), .. } if p == "/run/o.yml"));
    let phase = continue_rotation(Provider::NordVpn, phase, RotationEvent::Recreated(Ok(())));
    assert!(matches!(phase, Rotation::Verifying(_)));
    let r = done(continue_rotation(Provider::NordVpn, phase, RotationEvent::Verified(Ok(()))));
    assert!(r.success);
    assert_eq!(
        r.message,
        "Switched to NordVPN using the existing profile a.conf and verified leak protection."
    );
}

#[test]
fn plain_switch_without_profile_is_static() {
    assert!(matches!(
        activate_existing_provider_selection(Ok(None)),
        Rotation::Recreating { choice: Choice::Static, overlay: None }
    ));
    let phase = activate_existing_provider_selection(Err("x".to_string()));
    let phase = continue_rotation(Provider::ProtonVpn, phase, RotationEvent::Recreated(Ok(())));
    let r = done(continue_rotation(Provider::ProtonVpn, phase, RotationEvent::Verified(Ok(()))));
    assert_eq!(
        r.message,
        "Switched to ProtonVPN using its static Compose configuration and verified leak protection."
    );
}

#[test]
fn forced_rotation_saves_after_verification() {
    let phase = rotate_to_provider(Provider::NordVpn, true, Some(Provider::NordVpn));
    assert!(matches!(phase, Rotation::Choosing));
    let phase = continue_rotation(Provider::NordVpn, phase, RotationEvent::Chosen(Ok(selection())));
    let phase = continue_rotation(
        Provider::NordVpn,
        phase,
        RotationEvent::Written(Ok("/o".to_string())),
    );
    let phase = continue_rotation(Provider::NordVpn, phase, RotationEvent::Recreated(Ok(())));
    let phase = continue_rotation(Provider::NordVpn, phase, RotationEvent::Verified(Ok(())));
    assert!(matches!(phase, Rotation::Saving(_)));
    let r = done(continue_rotation(Provider::NordVpn, phase, RotationEvent::Saved(Ok(()))));
    assert!(r.success);
    assert_eq!(
        r.message,
        "Switched to NordVPN using profile a.conf and verified leak protection."
    );
    let r = done(continue_rotation(
        Provider::NordVpn,
        Rotation::Saving(selection()),
        RotationEvent::Saved(Err("disk full".to_string())),
    ));
    assert!(r.success);
    assert_eq!(
        r.message,
        "Switched to NordVPN using profile a.conf, but could not persist rotation history."
    );
}

#[test]
fn failed_steps_end_a_switch() {
    let fail = |phase: Rotation, event: RotationEvent| {
        let r = done(continue_rotation(Provider::NordVpn, phase, event));
        assert!(!r.success);
        r.message
    };
    let e = || Err("x".to_string());
    assert_eq!(
        fail(Rotation::Choosing, RotationEvent::Chosen(Err("x".to_string()))),
        "Could not select a NordVPN profile: x"
    );
    assert_eq!(
        fail(
            Rotation::Preparing(Choice::Next(selection())),
            RotationEvent::Written(Err("x".to_string()))
        ),
        "Could not prepare profile selection: x"
    );
    assert_eq!(
        fail(
            Rotation::Preparing(Choice::Saved(profile("a"))),
            RotationEvent::Written(Err("x".to_string()))
        ),
        "Could not prepare saved profile selection: x"
    );
    assert_eq!(
        fail(
            Rotation::Recreating { choice: Choice::Static, overlay: None },
            RotationEvent::Recreated(e())
        ),
        "Network rotation failed: x"
    );
    assert_eq!(
        fail(Rotation::Verifying(Choice::Static), RotationEvent::Verified(e())),
        "Network rotation failed safety verification: x"
    );
}

#[test]
fn event_out_of_turn_changes_nothing() {
    assert!(matches!(
        continue_rotation(Provider::NordVpn, Rotation::Loading, RotationEvent::Verified(Ok(()))),
        Rotation::Loading
    ));
}

#[test]
fn links_point_at_the_provider() {
    let links = provider_links(Provider::ProtonVpn);
    assert_eq!(links.len(), 2);
    assert_eq!(links[0].destination, "docker-compose.yml");
    assert_eq!(links[0].source, "docker-compose.yml.protonvpn");
    assert_eq!(links[1].destination, "docker-compose.override.yml");
    assert_eq!(links[1].source, "docker-compose.override.yml.protonvpn");
    assert!(check_source(&links[0], true).is_ok());
    assert_eq!(
        check_source(&links[0], false).err().unwrap(),
        "Compose source file is missing: docker-compose.yml.protonvpn"
    );
    assert!(check_removal(&links[0], &Removal::Removed).is_ok());
    assert!(check_removal(&links[0], &Removal::NotFound).is_ok());
    assert_eq!(
        check_removal(&links[0], &Removal::Failed("denied".to_string())).err().unwrap(),
        "Could not replace docker-compose.yml: denied"
    );
    assert!(check_link(&links[0], &Ok(())).is_ok());
    assert_eq!(
        check_link(&links[0], &Err("denied".to_string())).err().unwrap(),
        "Could not link docker-compose.yml to docker-compose.yml.protonvpn: denied"
    );
}

#[test]
fn compose_commands_and_their_ends() {
    assert_eq!(compose_down_arguments(), vec!["compose", "down", "--remove-orphans"]);
    assert_eq!(compose_up_arguments(None), vec!["compose", "up", "-d", "--force-recreate"]);
    assert_eq!(
        compose_up_arguments(Some("/run/o.yml")),
        vec![
            "compose",
            "-f",
            "docker-compose.yml",
            "-f",
            "docker-compose.override.yml",
            "-f",
            "/run/o.yml",
            "up",
            "-d",
            "--force-recreate"
        ]
    );
    let exited = |success| ComposeExit::Exited { success, status: "exit status: 1".to_string() };
    assert!(compose_result(ComposeVerb::Up, &exited(true)).is_ok());
    assert_eq!(
        compose_result(ComposeVerb::Up, &exited(false)).err().unwrap(),
        "docker compose up exited with status exit status: 1"
    );
    assert_eq!(
        compose_result(ComposeVerb::Down, &ComposeExit::NotStarted("gone".to_string()))
            .err()
            .unwrap(),
        "Could not start docker compose down: gone"
    );
}

#[test]
fn failed_recreation_restores_links_of_another_provider() {
    let go = |previous, phase, outcome| recreate_stack(Provider::NordVpn, previous, phase, outcome);
    assert!(matches!(go(None, StackPhase::Stopping, Ok(())), StackPhase::Linking));
    assert!(matches!(go(None, StackPhase::Linking, Ok(())), StackPhase::Starting));
    assert!(matches!(
        go(None, StackPhase::Starting, Ok(())),
        StackPhase::Finished { restore_links: false, result: Ok(()) }
    ));
    assert!(matches!(
        go(None, StackPhase::Stopping, Err("x".to_string())),
        StackPhase::Finished { restore_links: false, result: Err(_) }
    ));
    assert!(matches!(
        go(Some(Provider::NordVpn), StackPhase::Linking, Err("x".to_string())),
        StackPhase::Finished { restore_links: true, result: Err(_) }
    ));
    assert!(matches!(
        go(Some(Provider::Direct), StackPhase::Starting, Err("x".to_string())),
        StackPhase::Finished { restore_links: true, result: Err(_) }
    ));
    assert!(matches!(
        go(Some(Provider::NordVpn), StackPhase::Starting, Err("x".to_string())),
        StackPhase::Finished { restore_links: false, result: Err(_) }
    ));
}

#[test]
fn verification_is_tried_a_number_of_times() {
    assert!(matches!(wait_for_safe_vpn(1, "1.1.1.1", "2.2.2.2"), Verification::Passed));
    assert!(matches!(wait_for_safe_vpn(1, "1.1.1.1", "1.1.1.1"), Verification::Again(2)));
    match wait_for_safe_vpn(VERIFICATION_ATTEMPTS, "1.1.1.1", "Unknown") {
        Verification::Failed(e) => {
            assert_eq!(e, "host/VPN egress could not be verified as distinct")
        }
        _ => panic!("verification goes on"),
    }
}
