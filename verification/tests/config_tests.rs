use skagit_flats::config::default_refresh_secs;

#[test]
fn default_refresh_is_sixty_seconds() {
    assert_eq!(default_refresh_secs(), 60);
}
