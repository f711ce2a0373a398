//! The stored equipment lists.
use vstd::prelude::*;
use crate::models::{Camera, Film, Identified, Lens, Photographer, Selection, Setup};

verus! {

/// Every camera, lens, film, photographer and setup that has been entered.
#[derive(Debug, Clone)]
pub struct Config {
    pub cameras: Vec<Camera>,
    pub lenses: Vec<Lens>,
    pub films: Vec<Film>,
    pub photographers: Vec<Photographer>,
    pub setups: Vec<Setup>,
}

impl Default for Config {
    /// No equipment at all.
    fn default() -> (r: Config)
        ensures
            r.cameras@.len() == 0,
            r.lenses@.len() == 0,
            r.films@.len() == 0,
            r.photographers@.len() == 0,
            r.setups@.len() == 0,
    {
        Config {
            cameras: Vec::new(),
            lenses: Vec::new(),
            films: Vec::new(),
            photographers: Vec::new(),
            setups: Vec::new(),
        }
    }
}

/// Why an equipment operation was refused.
#[derive(Debug, Clone, Copy, PartialEq, Eq, Structural)]
pub enum DataError {
    SetupNotFound,
    CameraNotFound,
    LensNotFound,
    FilmNotFound,
    PhotographerNotFound,
    /// A setup still uses the camera.
    CameraInUse,
    /// A setup still uses the lens.
    LensInUse,
}

/// Whether some item has identifier `id`.
pub open spec fn has_id<T: Identified>(items: Seq<T>, id: u128) -> bool {
    exists|k: int| 0 <= k < items.len() && #[trigger] items[k].key() == id
}

/// The first item with identifier `id`.
pub open spec fn first_with_id<T: Identified>(items: Seq<T>, id: u128) -> Option<T>
    decreases items.len(),
{
    if items.len() == 0 {
        None
    } else if items[0].key() == id {
        Some(items[0])
    } else {
        first_with_id(items.drop_first(), id)
    }
}

/// The items whose identifier is not `id`, in order.
pub open spec fn without_id<T: Identified>(items: Seq<T>, id: u128) -> Seq<T>
    decreases items.len(),
{
    if items.len() == 0 {
        items
    } else if items.last().key() == id {
        without_id(items.drop_last(), id)
    } else {
        without_id(items.drop_last(), id).push(items.last())
    }
}

/// Position of the first item with identifier `id`.
pub fn find_index<T: Identified>(items: &Vec<T>, id: u128) -> (r: Option<usize>)
    ensures
        match r {
            Some(k) => k < items@.len() && first_with_id(items@, id) == Some(items@[k as int])
                && items@[k as int].key() == id,
            None => first_with_id(items@, id) is None && !has_id(items@, id),
        },
{
    let mut k: usize = 0;
    assert(items@.skip(0) =~= items@);
    while k < items.len()
        invariant
            k <= items@.len(),
            first_with_id(items@, id) == first_with_id(items@.skip(k as int), id),
            forall|j: int| 0 <= j < k ==> #[trigger] items@[j].key() != id,
        decreases items@.len() - k,
    {
        assert(items@.skip(k as int)[0] == items@[k as int]);
        if items[k].get_id() == id {
            return Some(k);
        }
        assert(items@.skip(k as int).drop_first() =~= items@.skip(k + 1));
        k = k + 1;
    }
    assert(items@.skip(k as int) =~= Seq::<T>::empty());
    None
}

/// Removes every item with identifier `id`.
pub fn remove_id<T: Identified>(items: &mut Vec<T>, id: u128)
    ensures
        final(items)@ == without_id(old(items)@, id),
{
    let ghost orig = items@;
    let ghost mut j: int = 0;
    let mut i: usize = 0;
    assert(orig.skip(0) =~= orig);
    assert(orig.take(0) =~= Seq::<T>::empty());
    while i < items.len()
        invariant
            0 <= j <= orig.len(),
            i == without_id(orig.take(j), id).len(),
            items@ == without_id(orig.take(j), id) + orig.skip(j),
        decreases orig.len() - j,
    {
        let ghost kept = without_id(orig.take(j), id);
        assert(items@[i as int] == orig[j]);
        assert(orig.take(j + 1).drop_last() =~= orig.take(j));
        assert(orig.take(j + 1).last() == orig[j]);
        if items[i].get_id() == id {
            items.remove(i);
            assert(items@ =~= kept + orig.skip(j + 1));
        } else {
            assert(items@ =~= kept.push(orig[j]) + orig.skip(j + 1));
            i = i + 1;
        }
        proof {
            j = j + 1;
        }
    }
    assert(j == orig.len()) by {
        assert(items@.len() == i + (orig.len() - j));
    }
    assert(orig.take(j) =~= orig);
    assert(items@ =~= without_id(orig, id));
}

fn uses_camera(setups: &Vec<Setup>, id: u128) -> (r: bool)
    ensures
        r == exists|k: int| 0 <= k < setups@.len() && #[trigger] setups@[k].camera_id == id,
{
    let mut k: usize = 0;
    while k < setups.len()
        invariant
            k <= setups@.len(),
            forall|j: int| 0 <= j < k ==> #[trigger] setups@[j].camera_id != id,
        decreases setups@.len() - k,
    {
        if setups[k].camera_id == id {
            return true;
        }
        k = k + 1;
    }
    false
}

fn uses_lens(setups: &Vec<Setup>, id: u128) -> (r: bool)
    ensures
        r == exists|k: int| 0 <= k < setups@.len() && #[trigger] setups@[k].lens_id == Some(id),
{
    let mut k: usize = 0;
    while k < setups.len()
        invariant
            k <= setups@.len(),
            forall|j: int| 0 <= j < k ==> #[trigger] setups@[j].lens_id != Some(id),
        decreases setups@.len() - k,
    {
        if setups[k].lens_id == Some(id) {
            return true;
        }
        k = k + 1;
    }
    false
}

/// Access to the stored equipment.
pub struct DataManager {
    config: Config,
}

impl DataManager {
    /// A manager over already loaded equipment.
    pub fn with_config(config: Config) -> (r: DataManager)
        ensures
            r.config() == config,
    {
        DataManager { config }
    }

    pub closed spec fn config(&self) -> Config {
        self.config
    }

    /// The equipment, to be stored.
    pub fn get_config(&self) -> (r: &Config)
        ensures
            *r == self.config(),
    {
        &self.config
    }

    /// The equipment, giving up the manager.
    pub fn into_config(self) -> (r: Config)
        ensures
            r == self.config(),
    {
        self.config
    }

    /// Adds a camera and returns it.
    pub fn add_camera(&mut self, maker: String, model: String) -> (r: Camera)
        ensures
            r.maker@ == maker@ && r.model@ == model@,
            final(self).config() == (Config { cameras: final(self).config().cameras, ..old(self).config() }),
            final(self).config().cameras@ == old(self).config().cameras@.push(r),
    {
        let camera = Camera::new(maker, model);
        self.config.cameras.push(camera.duplicate());
        camera
    }

    /// Adds a lens and returns it.
    pub fn add_lens(
        &mut self,
        maker: String,
        model: String,
        focal_length: String,
        aperture: String,
        mount: String,
    ) -> (r: Lens)
        ensures
            r.maker@ == maker@ && r.model@ == model@ && r.focal_length@ == focal_length@
                && r.aperture@ == aperture@ && r.mount@ == mount@,
            final(self).config() == (Config { lenses: final(self).config().lenses, ..old(self).config() }),
            final(self).config().lenses@ == old(self).config().lenses@.push(r),
    {
        let lens = Lens::new(maker, model, focal_length, aperture, mount);
        self.config.lenses.push(lens.duplicate());
        lens
    }

    /// Adds a film stock and returns it.
    pub fn add_film(&mut self, maker: String, name: String, iso: u32) -> (r: Film)
        ensures
            r.maker@ == maker@ && r.name@ == name@ && r.iso == iso,
            final(self).config() == (Config { films: final(self).config().films, ..old(self).config() }),
            final(self).config().films@ == old(self).config().films@.push(r),
    {
        let film = Film::new(maker, name, iso);
        self.config.films.push(film.duplicate());
        film
    }

    /// Adds a photographer and returns them.
    pub fn add_photographer(&mut self, name: String, email: Option<String>) -> (r: Photographer)
        ensures
            r.name@ == name@ && r.email == email,
            final(self).config() == (Config {
                photographers: final(self).config().photographers,
                ..old(self).config()
            }),
            final(self).config().photographers@ == old(self).config().photographers@.push(r),
    {
        let person = Photographer::new(name, email);
        self.config.photographers.push(person.duplicate());
        person
    }

    /// Adds a setup of a known camera and, optionally, a known lens.
    pub fn add_setup(&mut self, name: String, camera_id: u128, lens_id: Option<u128>) -> (r: Result<Setup, DataError>)
        ensures
            !has_id(old(self).config().cameras@, camera_id) ==> r == Err::<Setup, DataError>(
                DataError::CameraNotFound,
            ) && final(self).config() == old(self).config(),
            has_id(old(self).config().cameras@, camera_id) && (lens_id matches Some(l) && !has_id(
                old(self).config().lenses@,
                l,
            )) ==> r == Err::<Setup, DataError>(DataError::LensNotFound) && final(self).config()
                == old(self).config(),
            r matches Ok(s) ==> s.name@ == name@ && s.camera_id == camera_id && s.lens_id == lens_id
                && final(self).config() == (Config { setups: final(self).config().setups, ..old(self).config() })
                && final(self).config().setups@ == old(self).config().setups@.push(s),
            has_id(old(self).config().cameras@, camera_id) && (lens_id matches Some(l) ==> has_id(
                old(self).config().lenses@,
                l,
            )) ==> r is Ok,
    {
        if find_index(&self.config.cameras, camera_id).is_none() {
            return Err(DataError::CameraNotFound);
        }
        match lens_id {
            Some(l) => {
                if find_index(&self.config.lenses, l).is_none() {
                    return Err(DataError::LensNotFound);
                }
            },
            None => {},
        }
        let setup = Setup::new(name, camera_id, lens_id);
        self.config.setups.push(setup.duplicate());
        Ok(setup)
    }

    /// The camera with identifier `id`.
    pub fn get_camera_by_id(&self, id: u128) -> (r: Option<&Camera>)
        ensures
            match first_with_id(self.config().cameras@, id) {
                Some(c) => r == Some(&c),
                None => r is None,
            },
    {
        match find_index(&self.config.cameras, id) {
            Some(k) => Some(&self.config.cameras[k]),
            None => None,
        }
    }

    /// The lens with identifier `id`.
    pub fn get_lens_by_id(&self, id: u128) -> (r: Option<&Lens>)
        ensures
            match first_with_id(self.config().lenses@, id) {
                Some(c) => r == Some(&c),
                None => r is None,
            },
    {
        match find_index(&self.config.lenses, id) {
            Some(k) => Some(&self.config.lenses[k]),
            None => None,
        }
    }

    /// The film with identifier `id`.
    pub fn get_film_by_id(&self, id: u128) -> (r: Option<&Film>)
        ensures
            match first_with_id(self.config().films@, id) {
                Some(c) => r == Some(&c),
                None => r is None,
            },
    {
        match find_index(&self.config.films, id) {
            Some(k) => Some(&self.config.films[k]),
            None => None,
        }
    }

    /// The photographer with identifier `id`.
    pub fn get_photographer_by_id(&self, id: u128) -> (r: Option<&Photographer>)
        ensures
            match first_with_id(self.config().photographers@, id) {
                Some(c) => r == Some(&c),
                None => r is None,
            },
    {
        match find_index(&self.config.photographers, id) {
            Some(k) => Some(&self.config.photographers[k]),
            None => None,
        }
    }

    /// The setup with identifier `id`.
    pub fn get_setup_by_id(&self, id: u128) -> (r: Option<&Setup>)
        ensures
            match first_with_id(self.config().setups@, id) {
                Some(c) => r == Some(&c),
                None => r is None,
            },
    {
        match find_index(&self.config.setups, id) {
            Some(k) => Some(&self.config.setups[k]),
            None => None,
        }
    }

    /// Gathers a setup with its camera and lens, a film and a photographer.
    pub fn create_selection(&self, setup_id: u128, film_id: u128, photographer_id: u128) -> (r: Result<Selection, DataError>)
        ensures
            match r {
                Ok(sel) => first_with_id(self.config().setups@, setup_id) == Some(sel.setup)
                    && first_with_id(self.config().cameras@, sel.setup.camera_id) == Some(sel.camera)
                    && match sel.setup.lens_id {
                        Some(l) => sel.lens is Some && first_with_id(self.config().lenses@, l) == sel.lens,
                        None => sel.lens is None,
                    }
                    && first_with_id(self.config().films@, film_id) == Some(sel.film)
                    && first_with_id(self.config().photographers@, photographer_id) == Some(sel.photographer),
                Err(e) => match first_with_id(self.config().setups@, setup_id) {
                    None => e == DataError::SetupNotFound,
                    Some(s) => if first_with_id(self.config().cameras@, s.camera_id) is None {
                        e == DataError::CameraNotFound
                    } else if s.lens_id matches Some(l) && first_with_id(self.config().lenses@, l) is None {
                        e == DataError::LensNotFound
                    } else if first_with_id(self.config().films@, film_id) is None {
                        e == DataError::FilmNotFound
                    } else {
                        first_with_id(self.config().photographers@, photographer_id) is None
                            && e == DataError::PhotographerNotFound
                    },
                },
            },
    {
        let setup = match self.get_setup_by_id(setup_id) {
            Some(s) => s,
            None => {
                return Err(DataError::SetupNotFound);
            },
        };
        let camera = match self.get_camera_by_id(setup.camera_id) {
            Some(c) => c,
            None => {
                return Err(DataError::CameraNotFound);
            },
        };
        let lens = match setup.lens_id {
            Some(l) => match self.get_lens_by_id(l) {
                Some(x) => Some(x.duplicate()),
                None => {
                    return Err(DataError::LensNotFound);
                },
            },
            None => None,
        };
        let film = match self.get_film_by_id(film_id) {
            Some(f) => f,
            None => {
                return Err(DataError::FilmNotFound);
            },
        };
        let photographer = match self.get_photographer_by_id(photographer_id) {
            Some(p) => p,
            None => {
                return Err(DataError::PhotographerNotFound);
            },
        };
        Ok(
            Selection {
                setup: setup.duplicate(),
                camera: camera.duplicate(),
                lens,
                film: film.duplicate(),
                photographer: photographer.duplicate(),
            },
        )
    }

    /// Deletes a camera that no setup uses.
    pub fn delete_camera(&mut self, id: u128) -> (r: Result<(), DataError>)
        ensures
            (exists|k: int| 0 <= k < old(self).config().setups@.len() && #[trigger] old(self).config().setups@[k].camera_id == id)
                ==> r == Err::<(), DataError>(DataError::CameraInUse) && final(self).config() == old(self).config(),
            r is Ok ==> final(self).config() == (Config {
                cameras: final(self).config().cameras,
                ..old(self).config()
            }) && final(self).config().cameras@ == without_id(old(self).config().cameras@, id),
            !(exists|k: int| 0 <= k < old(self).config().setups@.len() && #[trigger] old(self).config().setups@[k].camera_id == id)
                ==> r is Ok,
    {
        if uses_camera(&self.config.setups, id) {
            return Err(DataError::CameraInUse);
        }
        remove_id(&mut self.config.cameras, id);
        Ok(())
    }

    /// Deletes a lens that no setup uses.
    pub fn delete_lens(&mut self, id: u128) -> (r: Result<(), DataError>)
        ensures
            (exists|k: int| 0 <= k < old(self).config().setups@.len() && #[trigger] old(self).config().setups@[k].lens_id == Some(id))
                ==> r == Err::<(), DataError>(DataError::LensInUse) && final(self).config() == old(self).config(),
            r is Ok ==> final(self).config() == (Config {
                lenses: final(self).config().lenses,
                ..old(self).config()
            }) && final(self).config().lenses@ == without_id(old(self).config().lenses@, id),
            !(exists|k: int| 0 <= k < old(self).config().setups@.len() && #[trigger] old(self).config().setups@[k].lens_id == Some(id))
                ==> r is Ok,
    {
        if uses_lens(&self.config.setups, id) {
            return Err(DataError::LensInUse);
        }
        remove_id(&mut self.config.lenses, id);
        Ok(())
    }

    /// Deletes a film stock.
    pub fn delete_film(&mut self, id: u128)
        ensures
            final(self).config() == (Config { films: final(self).config().films, ..old(self).config() }),
            final(self).config().films@ == without_id(old(self).config().films@, id),
    {
        remove_id(&mut self.config.films, id);
    }

    /// Deletes a photographer.
    pub fn delete_photographer(&mut self, id: u128)
        ensures
            final(self).config() == (Config {
                photographers: final(self).config().photographers,
                ..old(self).config()
            }),
            final(self).config().photographers@ == without_id(old(self).config().photographers@, id),
    {
        remove_id(&mut self.config.photographers, id);
    }

    /// Deletes a setup.
    pub fn delete_setup(&mut self, id: u128)
        ensures
            final(self).config() == (Config { setups: final(self).config().setups, ..old(self).config() }),
            final(self).config().setups@ == without_id(old(self).config().setups@, id),
    {
        remove_id(&mut self.config.setups, id);
    }

    /// Changes a camera's maker and model; false when there is no such camera.
    pub fn edit_camera(&mut self, id: u128, maker: String, model: String) -> (r: bool)
        ensures
            r == has_id(old(self).config().cameras@, id),
            !r ==> final(self).config() == old(self).config(),
            r ==> final(self).config() == (Config { cameras: final(self).config().cameras, ..old(self).config() })
                && exists|k: int| 0 <= k < old(self).config().cameras@.len() && old(self).config().cameras@[k].id == id
                    && first_with_id(old(self).config().cameras@, id) == Some(old(self).config().cameras@[k])
                    && final(self).config().cameras@ == old(self).config().cameras@.update(k,
                    Camera { maker, model, ..old(self).config().cameras@[k] }),
    {
        match find_index(&self.config.cameras, id) {
            Some(k) => {
                let c = Camera { id: self.config.cameras[k].id, maker, model, created_at: self.config.cameras[k].created_at };
                self.config.cameras.set(k, c);
                true
            },
            None => false,
        }
    }

    /// Changes a lens; false when there is no such lens.
    pub fn edit_lens(
        &mut self,
        id: u128,
        maker: String,
        model: String,
        focal_length: String,
        aperture: String,
        mount: String,
    ) -> (r: bool)
        ensures
            r == has_id(old(self).config().lenses@, id),
            !r ==> final(self).config() == old(self).config(),
            r ==> final(self).config() == (Config { lenses: final(self).config().lenses, ..old(self).config() })
                && exists|k: int| 0 <= k < old(self).config().lenses@.len() && old(self).config().lenses@[k].id == id
                    && first_with_id(old(self).config().lenses@, id) == Some(old(self).config().lenses@[k])
                    && final(self).config().lenses@ == old(self).config().lenses@.update(k,
                    Lens { maker, model, focal_length, aperture, mount, ..old(self).config().lenses@[k] }),
    {
        match find_index(&self.config.lenses, id) {
            Some(k) => {
                let l = Lens {
                    id: self.config.lenses[k].id,
                    maker,
                    model,
                    focal_length,
                    aperture,
                    mount,
                    created_at: self.config.lenses[k].created_at,
                };
                self.config.lenses.set(k, l);
                true
            },
            None => false,
        }
    }

    /// Changes a film stock; false when there is no such film.
    pub fn edit_film(&mut self, id: u128, maker: String, name: String, iso: u32) -> (r: bool)
        ensures
            r == has_id(old(self).config().films@, id),
            !r ==> final(self).config() == old(self).config(),
            r ==> final(self).config() == (Config { films: final(self).config().films, ..old(self).config() })
                && exists|k: int| 0 <= k < old(self).config().films@.len() && old(self).config().films@[k].id == id
                    && first_with_id(old(self).config().films@, id) == Some(old(self).config().films@[k])
                    && final(self).config().films@ == old(self).config().films@.update(k,
                    Film { maker, name, iso, ..old(self).config().films@[k] }),
    {
        match find_index(&self.config.films, id) {
            Some(k) => {
                let f = Film { id: self.config.films[k].id, maker, name, iso, created_at: self.config.films[k].created_at };
                self.config.films.set(k, f);
                true
            },
            None => false,
        }
    }

    /// Changes a photographer; false when there is no such photographer.
    pub fn edit_photographer(&mut self, id: u128, name: String, email: Option<String>) -> (r: bool)
        ensures
            r == has_id(old(self).config().photographers@, id),
            !r ==> final(self).config() == old(self).config(),
            r ==> final(self).config() == (Config {
                photographers: final(self).config().photographers,
                ..old(self).config()
            }) && exists|k: int| 0 <= k < old(self).config().photographers@.len()
                    && old(self).config().photographers@[k].id == id
                    && first_with_id(old(self).config().photographers@, id) == Some(old(self).config().photographers@[k])
                    && final(self).config().photographers@ == old(self).config().photographers@.update(k,
                    Photographer { name, email, ..old(self).config().photographers@[k] }),
    {
        match find_index(&self.config.photographers, id) {
            Some(k) => {
                let p = Photographer {
                    id: self.config.photographers[k].id,
                    name,
                    email,
                    created_at: self.config.photographers[k].created_at,
                };
                self.config.photographers.set(k, p);
                true
            },
            None => false,
        }
    }

    /// Changes a setup to a known camera and, optionally, a known lens;
    /// Ok(false) when there is no such setup.
    pub fn edit_setup(&mut self, id: u128, name: String, camera_id: u128, lens_id: Option<u128>) -> (r: Result<bool, DataError>)
        ensures
            !has_id(old(self).config().cameras@, camera_id) ==> r == Err::<bool, DataError>(DataError::CameraNotFound),
            has_id(old(self).config().cameras@, camera_id) && (lens_id matches Some(l) && !has_id(
                old(self).config().lenses@,
                l,
            )) ==> r == Err::<bool, DataError>(DataError::LensNotFound),
            r is Err || r == Ok::<bool, DataError>(false) ==> final(self).config() == old(self).config(),
            has_id(old(self).config().cameras@, camera_id) && (lens_id matches Some(l) ==> has_id(
                old(self).config().lenses@,
                l,
            )) ==> r == Ok::<bool, DataError>(has_id(old(self).config().setups@, id)),
            r == Ok::<bool, DataError>(true) ==> final(self).config() == (Config {
                setups: final(self).config().setups,
                ..old(self).config()
            }) && exists|k: int| 0 <= k < old(self).config().setups@.len() && old(self).config().setups@[k].id == id
                    && first_with_id(old(self).config().setups@, id) == Some(old(self).config().setups@[k])
                    && final(self).config().setups@ == old(self).config().setups@.update(k,
                    Setup { name, camera_id, lens_id, ..old(self).config().setups@[k] }),
    {
        if find_index(&self.config.cameras, camera_id).is_none() {
            return Err(DataError::CameraNotFound);
        }
        match lens_id {
            Some(l) => {
                if find_index(&self.config.lenses, l).is_none() {
                    return Err(DataError::LensNotFound);
                }
            },
            None => {},
        }
        match find_index(&self.config.setups, id) {
            Some(k) => {
                let s = Setup { id: self.config.setups[k].id, name, camera_id, lens_id, created_at: self.config.setups[k].created_at };
                self.config.setups.set(k, s);
                Ok(true)
            },
            None => Ok(false),
        }
    }
}

} // verus!
