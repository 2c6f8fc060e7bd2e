use stars_rs::state::{button_system, loading, AppState, GameState, Interaction, LoadState};

#[test]
fn app_starts_loading() {
    assert_eq!(AppState::default(), AppState::Loading);
}

#[test]
fn loading_ends_in_the_menu_once_loaded() {
    assert_eq!(loading(AppState::Loading, LoadState::Loaded), AppState::Menu);
    assert_eq!(loading(AppState::Loading, LoadState::Loading), AppState::Loading);
    assert_eq!(loading(AppState::Loading, LoadState::NotLoaded), AppState::Loading);
    assert_eq!(loading(AppState::Loading, LoadState::Failed), AppState::Loading);
}

#[test]
fn loading_changes_no_other_phase() {
    for load in [LoadState::NotLoaded, LoadState::Loading, LoadState::Loaded, LoadState::Failed] {
        assert_eq!(loading(AppState::Menu, load), AppState::Menu);
        assert_eq!(loading(AppState::Main, load), AppState::Main);
    }
}

#[test]
fn a_click_in_the_menu_starts_play() {
    assert_eq!(button_system(AppState::Menu, Interaction::Clicked), AppState::Main);
    assert_eq!(button_system(AppState::Menu, Interaction::Hovered), AppState::Menu);
    assert_eq!(button_system(AppState::Menu, Interaction::Idle), AppState::Menu);
}

#[test]
fn a_click_changes_no_other_phase() {
    for interaction in [Interaction::Clicked, Interaction::Hovered, Interaction::Idle] {
        assert_eq!(button_system(AppState::Loading, interaction), AppState::Loading);
        assert_eq!(button_system(AppState::Main, interaction), AppState::Main);
    }
}

#[test]
fn phases_run_in_one_direction() {
    let mut state = AppState::default();
    state = button_system(state, Interaction::Clicked);
    assert_eq!(state, AppState::Loading);
    state = loading(state, LoadState::Loaded);
    assert_eq!(state, AppState::Menu);
    state = loading(state, LoadState::Loaded);
    assert_eq!(state, AppState::Menu);
    state = button_system(state, Interaction::Clicked);
    assert_eq!(state, AppState::Main);
    assert!(state.is_main());
    state = loading(state, LoadState::Loaded);
    state = button_system(state, Interaction::Clicked);
    assert_eq!(state, AppState::Main);
}

#[test]
fn game_state_holds_the_count() {
    let game = GameState { enemies_left: 5 };
    assert_eq!(game.enemies_left, 5);
    assert_eq!(game, GameState { enemies_left: 5 });
}
