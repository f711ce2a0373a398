use ifex::models::{Camera, Film, Lens, Photographer, Selection, Setup};

#[test]
fn test_camera_new() {
    let camera = Camera::new("Canon".to_string(), "EOS R5".to_string());

    assert_eq!(camera.maker, "Canon");
    assert_eq!(camera.model, "EOS R5");
    assert!(camera.id != 0);
}

#[test]
fn test_camera_display_name() {
    let camera = Camera::new("Canon".to_string(), "EOS R5".to_string());
    assert_eq!(camera.display_name(), "Canon EOS R5");
}

#[test]
fn test_lens_new() {
    let lens = Lens::new(
        "Canon".to_string(),
        "EF 50mm".to_string(),
        "50".to_string(),
        "1.4".to_string(),
        "EF".to_string(),
    );

    assert_eq!(lens.maker, "Canon");
    assert_eq!(lens.model, "EF 50mm");
    assert_eq!(lens.focal_length, "50");
    assert_eq!(lens.aperture, "1.4");
    assert_eq!(lens.mount, "EF");
    assert!(lens.id != 0);
}

#[test]
fn test_lens_display_name() {
    let lens = Lens::new(
        "Canon".to_string(),
        "EF 50mm".to_string(),
        "50".to_string(),
        "1.4".to_string(),
        "EF".to_string(),
    );
    assert_eq!(lens.display_name(), "Canon EF 50mm 50mm f/1.4");
}

#[test]
fn test_lens_model_with_aperture() {
    let lens = Lens::new(
        "Canon".to_string(),
        "EF 50mm".to_string(),
        "50".to_string(),
        "1.4".to_string(),
        "EF".to_string(),
    );
    assert_eq!(lens.lens_model_with_aperture(), "EF 50mm f/1.4");
}

#[test]
fn test_film_new() {
    let film = Film::new("Kodak".to_string(), "Tri-X".to_string(), 400);

    assert_eq!(film.maker, "Kodak");
    assert_eq!(film.name, "Tri-X");
    assert_eq!(film.iso, 400);
    assert!(film.id != 0);
}

#[test]
fn test_film_display_name() {
    let film = Film::new("Kodak".to_string(), "Tri-X".to_string(), 400);
    assert_eq!(film.display_name(), "Kodak Tri-X (ISO 400)");
}

#[test]
fn test_photographer_new_with_email() {
    let photographer =
        Photographer::new("John Doe".to_string(), Some("john@example.com".to_string()));

    assert_eq!(photographer.name, "John Doe");
    assert_eq!(photographer.email, Some("john@example.com".to_string()));
    assert!(photographer.id != 0);
}

#[test]
fn test_photographer_new_without_email() {
    let photographer = Photographer::new("Jane Doe".to_string(), None);

    assert_eq!(photographer.name, "Jane Doe");
    assert_eq!(photographer.email, None);
    assert!(photographer.id != 0);
}

#[test]
fn test_photographer_display_name_with_email() {
    let photographer =
        Photographer::new("John Doe".to_string(), Some("john@example.com".to_string()));
    assert_eq!(photographer.display_name(), "John Doe <john@example.com>");
}

#[test]
fn test_photographer_display_name_without_email() {
    let photographer = Photographer::new("Jane Doe".to_string(), None);
    assert_eq!(photographer.display_name(), "Jane Doe");
}

#[test]
fn test_setup_new() {
    let camera_id = uuid::Uuid::new_v4().as_u128();
    let lens_id = uuid::Uuid::new_v4().as_u128();
    let setup = Setup::new("My Setup".to_string(), camera_id, Some(lens_id));

    assert_eq!(setup.name, "My Setup");
    assert_eq!(setup.camera_id, camera_id);
    assert_eq!(setup.lens_id, Some(lens_id));
    assert!(setup.id != 0);
}

#[test]
fn test_setup_display_name() {
    let camera_id = uuid::Uuid::new_v4().as_u128();
    let lens_id = uuid::Uuid::new_v4().as_u128();
    let setup = Setup::new("My Setup".to_string(), camera_id, Some(lens_id));
    assert_eq!(setup.display_name(), "My Setup");
}

#[test]
fn test_selection_workflow() {
    let camera = Camera::new("Nikon".to_string(), "D850".to_string());
    let lens = Lens::new(
        "Nikon".to_string(),
        "AF-S 24-70mm".to_string(),
        "24-70".to_string(),
        "2.8".to_string(),
        "F".to_string(),
    );
    let film = Film::new("Kodak".to_string(), "Portra 400".to_string(), 400);
    let photographer = Photographer::new("Test User".to_string(), None);
    let setup = Setup::new("Wedding Setup".to_string(), camera.id, Some(lens.id));

    let selection = Selection {
        setup,
        camera,
        lens: Some(lens),
        film,
        photographer,
    };

    assert_eq!(selection.camera.display_name(), "Nikon D850");
    assert_eq!(
        selection.lens.as_ref().unwrap().display_name(),
        "Nikon AF-S 24-70mm 24-70mm f/2.8"
    );
    assert_eq!(selection.film.display_name(), "Kodak Portra 400 (ISO 400)");
    assert_eq!(selection.photographer.display_name(), "Test User");
    assert_eq!(selection.setup.display_name(), "Wedding Setup");
}

#[test]
fn new_equipment_records_its_creation_time() {
    let camera = Camera::new("Leica".to_string(), "M7".to_string());
    assert!(camera.created_at > 1_500_000_000_000);
    let other = Camera::new("Leica".to_string(), "M7".to_string());
    assert_ne!(camera.id, other.id);
    assert_eq!((camera.id >> 76) & 0xF, 4);
}

#[test]
fn complete_lens_model_includes_focal_length() {
    let lens = Lens::new(
        "Leica".to_string(),
        "Summicron".to_string(),
        "35".to_string(),
        "2".to_string(),
        "M".to_string(),
    );
    assert_eq!(lens.complete_lens_model(), "Summicron 35mm f/2");
}
