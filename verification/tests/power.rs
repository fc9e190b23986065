//! What is said of power settings.
use savio::power::{
    plan_from_parts, power_hint, PlanId, PowerMode, PowerModes, PowerPlan, PowerState, BALANCED_PLAN,
};

fn plans() -> Vec<PowerPlan> {
    vec![
        PowerPlan {
            id: BALANCED_PLAN,
            name: "Сбалансированная".to_owned(),
        },
        PowerPlan {
            id: plan_from_parts(
                0x8c5e_7fda,
                0xe8bf,
                0x4a96,
                [0x9a, 0x85, 0xa6, 0xe2, 0x3a, 0x8c, 0x63, 0x5c],
            ),
            name: "Высокая производительность".to_owned(),
        },
    ]
}

fn high_performance() -> PlanId {
    plans()[1].id
}

#[test]
fn the_power_hint_stays_quiet_when_the_mode_really_applies() {
    let state = PowerState {
        plans: plans(),
        active: Some(BALANCED_PLAN),
        modes: PowerModes::Known {
            effective: Some(PowerMode::Max),
            ignored: None,
        },
        trouble: None,
    };
    assert_eq!(power_hint(&state), "");
}

#[test]
fn the_power_hint_warns_before_the_press_when_the_scheme_is_not_balanced() {
    let state = PowerState {
        plans: plans(),
        active: Some(high_performance()),
        modes: PowerModes::Known {
            effective: Some(PowerMode::Balanced),
            ignored: None,
        },
        trouble: None,
    };

    let hint = power_hint(&state);
    assert!(hint.contains("Высокая производительность"), "{hint}");
    assert!(hint.contains("Сбалансированная"), "{hint}");
}

#[test]
fn the_power_hint_names_both_modes_when_the_stored_one_is_ignored() {
    let state = PowerState {
        plans: plans(),
        active: Some(high_performance()),
        modes: PowerModes::Known {
            effective: Some(PowerMode::Balanced),
            ignored: Some(PowerMode::Max),
        },
        trouble: None,
    };

    let hint = power_hint(&state);
    assert!(hint.contains(PowerMode::Max.label()), "{hint}");
    assert!(hint.contains(PowerMode::Balanced.label()), "{hint}");
}

#[test]
fn the_power_hint_does_not_invent_a_scheme_name() {
    let state = PowerState {
        plans: Vec::new(),
        active: Some(high_performance()),
        modes: PowerModes::Known {
            effective: Some(PowerMode::Balanced),
            ignored: None,
        },
        trouble: None,
    };

    let hint = power_hint(&state);
    assert!(!hint.is_empty(), "предупредить всё равно надо");
    assert!(!hint.contains("Высокая производительность"), "{hint}");
}

#[test]
fn the_power_hint_says_nothing_where_there_are_no_modes() {
    let state = PowerState {
        plans: plans(),
        active: Some(high_performance()),
        modes: PowerModes::Unsupported,
        trouble: Some("режимов нет".to_owned()),
    };
    assert_eq!(power_hint(&state), "");
}

#[test]
fn a_scheme_number_is_put_together_from_its_parts() {
    assert_eq!(
        plan_from_parts(
            0x381b_4222,
            0xf694,
            0x41f0,
            [0x96, 0x85, 0xff, 0x5b, 0xb2, 0x60, 0xdf, 0x2e],
        ),
        BALANCED_PLAN
    );
    assert_eq!(plan_from_parts(0, 0, 0, [0, 0, 0, 0, 0, 0, 0, 7]), 7);
}

#[test]
fn schemes_are_named_by_the_system_alone() {
    let mut state = PowerState::default();
    assert!(state.is_blank());
    assert_eq!(state.active_name(), None);
    state.plans = plans();
    state.active = Some(high_performance());
    assert!(!state.is_blank());
    assert_eq!(state.active_name(), Some("Высокая производительность"));
    assert_eq!(state.plan_name(BALANCED_PLAN), Some("Сбалансированная"));
    assert_eq!(state.plan_name(1), None);
}

#[test]
fn choosing_what_is_in_effect_changes_nothing() {
    let state = PowerState {
        plans: plans(),
        active: Some(BALANCED_PLAN),
        modes: PowerModes::Known {
            effective: Some(PowerMode::Max),
            ignored: None,
        },
        trouble: None,
    };
    assert!(!state.would_change_plan(BALANCED_PLAN));
    assert!(state.would_change_plan(high_performance()));
    assert!(!state.would_change_mode(PowerMode::Max));
    assert!(state.would_change_mode(PowerMode::Efficient));
    assert!(!state.mode_is_strange());
    assert!(!PowerState::default().would_change_mode(PowerMode::Max));
}

#[test]
fn a_mode_that_is_not_offered_is_shown_only_while_it_is_in_effect() {
    let mut state = PowerState {
        plans: plans(),
        active: Some(BALANCED_PLAN),
        modes: PowerModes::Known {
            effective: Some(PowerMode::Max),
            ignored: None,
        },
        trouble: None,
    };
    let shown: Vec<PowerMode> = PowerMode::ALL
        .into_iter()
        .filter(|mode| state.shows_mode(*mode))
        .collect();
    assert_eq!(shown, [PowerMode::Efficient, PowerMode::Balanced, PowerMode::Max]);

    state.modes = PowerModes::Known {
        effective: Some(PowerMode::Better),
        ignored: None,
    };
    assert!(PowerMode::ALL.into_iter().all(|mode| state.shows_mode(mode)));
    assert!(!state.mode_is_strange());

    state.modes = PowerModes::Known {
        effective: None,
        ignored: Some(PowerMode::Better),
    };
    assert!(!state.shows_mode(PowerMode::Better));
    assert!(state.shows_mode(PowerMode::Max));

    state.modes = PowerModes::Unsupported;
    assert!(PowerMode::ALL.into_iter().all(|mode| !state.shows_mode(mode)));
    assert!(PowerMode::Max.offered() && !PowerMode::Better.offered());
}
