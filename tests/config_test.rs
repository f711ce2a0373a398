use ifex::config::{Config, DataManager};
use ifex::models::Camera;

#[test]
fn test_config_default() {
    let config = Config::default();

    assert!(config.cameras.is_empty());
    assert!(config.lenses.is_empty());
    assert!(config.films.is_empty());
    assert!(config.photographers.is_empty());
    assert!(config.setups.is_empty());
}

#[test]
fn data_manager_keeps_the_loaded_config() {
    let mut config = Config::default();
    config
        .cameras
        .push(Camera::new("Canon".to_string(), "EOS R5".to_string()));
    let manager = DataManager::with_config(config);
    assert_eq!(manager.get_config().cameras.len(), 1);
    assert_eq!(manager.get_config().cameras[0].maker, "Canon");
}
