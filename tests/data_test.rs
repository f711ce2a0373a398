use ifex::config::{Config, DataError, DataManager};

#[test]
fn equipment_is_added_and_found() {
    let mut m = DataManager::with_config(Config::default());
    let camera = m.add_camera("Canon".to_string(), "EOS R5".to_string());
    let lens = m.add_lens("Canon".to_string(), "EF 85mm".to_string(), "85".to_string(), "1.2".to_string(), "EF".to_string());
    let film = m.add_film("Fujifilm".to_string(), "Velvia 50".to_string(), 50);
    let person = m.add_photographer("Jane Smith".to_string(), Some("jane@example.com".to_string()));
    let setup = m.add_setup("Portrait Setup".to_string(), camera.id, Some(lens.id)).unwrap();
    assert_eq!(m.get_config().cameras.len(), 1);
    assert_eq!(m.get_camera_by_id(camera.id).unwrap().display_name(), "Canon EOS R5");
    assert_eq!(m.get_lens_by_id(lens.id).unwrap().display_name(), "Canon EF 85mm 85mm f/1.2");
    assert!(m.get_film_by_id(12345).is_none());
    let selection = m.create_selection(setup.id, film.id, person.id).unwrap();
    assert_eq!(selection.camera.id, camera.id);
    assert_eq!(selection.lens.as_ref().unwrap().id, lens.id);
    assert_eq!(selection.film.display_name(), "Fujifilm Velvia 50 (ISO 50)");
    assert_eq!(selection.photographer.display_name(), "Jane Smith <jane@example.com>");
    assert_eq!(m.get_setup_by_id(setup.id).unwrap().lens_id, Some(lens.id));
    assert_eq!(m.get_photographer_by_id(person.id).unwrap().name, "Jane Smith");
}

#[test]
fn setups_need_known_equipment() {
    let mut m = DataManager::with_config(Config::default());
    assert_eq!(m.add_setup("x".to_string(), 1, None).unwrap_err(), DataError::CameraNotFound);
    let camera = m.add_camera("Leica".to_string(), "M7".to_string());
    assert_eq!(m.add_setup("x".to_string(), camera.id, Some(7)).unwrap_err(), DataError::LensNotFound);
    assert!(m.add_setup("body only".to_string(), camera.id, None).is_ok());
    assert_eq!(m.create_selection(99, 1, 1).unwrap_err(), DataError::SetupNotFound);
}

#[test]
fn used_equipment_cannot_be_deleted() {
    let mut m = DataManager::with_config(Config::default());
    let camera = m.add_camera("Leica".to_string(), "M7".to_string());
    let lens = m.add_lens("Leica".to_string(), "Summicron".to_string(), "35".to_string(), "2".to_string(), "M".to_string());
    let setup = m.add_setup("Street".to_string(), camera.id, Some(lens.id)).unwrap();
    assert_eq!(m.delete_camera(camera.id).unwrap_err(), DataError::CameraInUse);
    assert_eq!(m.delete_lens(lens.id).unwrap_err(), DataError::LensInUse);
    m.delete_setup(setup.id);
    assert!(m.delete_lens(lens.id).is_ok());
    assert!(m.delete_camera(camera.id).is_ok());
    assert!(m.get_config().cameras.is_empty() && m.get_config().lenses.is_empty());
    let film = m.add_film("Kodak".to_string(), "Tri-X".to_string(), 400);
    m.delete_film(film.id);
    let person = m.add_photographer("John".to_string(), None);
    m.delete_photographer(person.id);
    let config = m.into_config();
    assert!(config.films.is_empty() && config.photographers.is_empty());
}

#[test]
fn edits_replace_fields_and_keep_identity() {
    let mut m = DataManager::with_config(Config::default());
    let camera = m.add_camera("Nikon".to_string(), "F3".to_string());
    assert!(m.edit_camera(camera.id, "Nikon".to_string(), "FM2".to_string()));
    assert!(!m.edit_camera(camera.id + 1, "x".to_string(), "y".to_string()));
    let edited = m.get_camera_by_id(camera.id).unwrap();
    assert_eq!(edited.model, "FM2");
    assert_eq!(edited.created_at, camera.created_at);
    let film = m.add_film("Kodak".to_string(), "Tri-X".to_string(), 400);
    assert!(m.edit_film(film.id, "Kodak".to_string(), "Tri-X".to_string(), 1600));
    assert_eq!(m.get_film_by_id(film.id).unwrap().iso, 1600);
    let lens = m.add_lens("Nikon".to_string(), "50".to_string(), "50".to_string(), "1.8".to_string(), "F".to_string());
    assert!(m.edit_lens(lens.id, "Nikon".to_string(), "Nikkor".to_string(), "50".to_string(), "1.4".to_string(), "F".to_string()));
    let person = m.add_photographer("Ann".to_string(), None);
    assert!(m.edit_photographer(person.id, "Ann Lee".to_string(), Some("ann@example.com".to_string())));
    let setup = m.add_setup("A".to_string(), camera.id, None).unwrap();
    assert_eq!(m.edit_setup(setup.id, "B".to_string(), camera.id, Some(lens.id)), Ok(true));
    assert_eq!(m.edit_setup(setup.id + 1, "B".to_string(), camera.id, None), Ok(false));
    assert_eq!(m.edit_setup(setup.id, "B".to_string(), 3, None), Err(DataError::CameraNotFound));
    assert_eq!(m.get_setup_by_id(setup.id).unwrap().name, "B");
}
