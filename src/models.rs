//! Photographic equipment, film stocks and photographers, and the
//! selection of them that metadata is written from.
use vstd::prelude::*;
use vstd::string::StringExecFns;
use crate::readout::{digits, push_digits};

verus! {

/// Whether an identifier is a version 4 UUID: version nibble 4, variant
/// bits 10.
pub open spec fn is_v4_id(id: u128) -> bool {
    id & 0xF000_C000_0000_0000_0000u128 == 0x4000_8000_0000_0000_0000u128
}

/// Relies on `uuid::Uuid::new_v4` and `Uuid::as_u128`: a random identifier
/// whose version nibble is 4 and whose variant bits are 10.
#[verifier::external_body]
fn new_id() -> (r: u128)
    ensures
        is_v4_id(r),
{
    uuid::Uuid::new_v4().as_u128()
}

/// Relies on `chrono::Utc::now` and `DateTime::timestamp_millis`: the
/// current time in milliseconds since the Unix epoch.
#[verifier::external_body]
fn now_millis() -> (r: i64) {
    chrono::Utc::now().timestamp_millis()
}

/// A camera body.
#[derive(Debug, Clone)]
pub struct Camera {
    /// Identifier (a version 4 UUID as an integer).
    pub id: u128,
    pub maker: String,
    pub model: String,
    /// Creation time in milliseconds since the Unix epoch.
    pub created_at: i64,
}

/// A lens.
#[derive(Debug, Clone)]
pub struct Lens {
    pub id: u128,
    pub maker: String,
    pub model: String,
    /// Focal length as entered, such as "50" or "24-70".
    pub focal_length: String,
    /// Largest aperture as entered, such as "1.4".
    pub aperture: String,
    pub mount: String,
    pub created_at: i64,
}

/// A film stock.
#[derive(Debug, Clone)]
pub struct Film {
    pub id: u128,
    pub maker: String,
    pub name: String,
    /// Box speed.
    pub iso: u32,
    pub created_at: i64,
}

/// A photographer.
#[derive(Debug, Clone)]
pub struct Photographer {
    pub id: u128,
    pub name: String,
    pub email: Option<String>,
    pub created_at: i64,
}

/// A named camera, with an optional lens.
#[derive(Debug, Clone)]
pub struct Setup {
    pub id: u128,
    pub name: String,
    pub camera_id: u128,
    pub lens_id: Option<u128>,
    pub created_at: i64,
}

/// Everything that metadata is written from.
#[derive(Debug, Clone)]
pub struct Selection {
    pub setup: Setup,
    pub camera: Camera,
    pub lens: Option<Lens>,
    pub film: Film,
    pub photographer: Photographer,
}

impl Camera {
    /// A camera with a fresh identifier and the current time.
    pub fn new(maker: String, model: String) -> (r: Camera)
        ensures
            r.maker@ == maker@,
            r.model@ == model@,
            is_v4_id(r.id),
    {
        Camera { id: new_id(), maker, model, created_at: now_millis() }
    }

    /// "Maker Model".
    pub fn display_name(&self) -> (r: String)
        ensures
            r@ == self.maker@ + " "@ + self.model@,
    {
        let mut s = String::from_str(self.maker.as_str());
        s.append(" ");
        s.append(self.model.as_str());
        s
    }
}

impl Lens {
    /// A lens with a fresh identifier and the current time.
    pub fn new(maker: String, model: String, focal_length: String, aperture: String, mount: String) -> (r: Lens)
        ensures
            r.maker@ == maker@,
            r.model@ == model@,
            r.focal_length@ == focal_length@,
            r.aperture@ == aperture@,
            r.mount@ == mount@,
            is_v4_id(r.id),
    {
        Lens { id: new_id(), maker, model, focal_length, aperture, mount, created_at: now_millis() }
    }

    /// "Maker Model Focalmm f/Aperture".
    pub fn display_name(&self) -> (r: String)
        ensures
            r@ == self.maker@ + " "@ + self.model@ + " "@ + self.focal_length@ + "mm f/"@
                + self.aperture@,
    {
        let mut s = String::from_str(self.maker.as_str());
        s.append(" ");
        s.append(self.model.as_str());
        s.append(" ");
        s.append(self.focal_length.as_str());
        s.append("mm f/");
        s.append(self.aperture.as_str());
        s
    }

    /// "Model f/Aperture".
    pub fn lens_model_with_aperture(&self) -> (r: String)
        ensures
            r@ == self.model@ + " f/"@ + self.aperture@,
    {
        let mut s = String::from_str(self.model.as_str());
        s.append(" f/");
        s.append(self.aperture.as_str());
        s
    }

    /// "Model Focalmm f/Aperture", the lens model written to metadata.
    pub fn complete_lens_model(&self) -> (r: String)
        ensures
            r@ == self.model@ + " "@ + self.focal_length@ + "mm f/"@ + self.aperture@,
    {
        let mut s = String::from_str(self.model.as_str());
        s.append(" ");
        s.append(self.focal_length.as_str());
        s.append("mm f/");
        s.append(self.aperture.as_str());
        s
    }
}

impl Film {
    /// A film stock with a fresh identifier and the current time.
    pub fn new(maker: String, name: String, iso: u32) -> (r: Film)
        ensures
            r.maker@ == maker@,
            r.name@ == name@,
            r.iso == iso,
            is_v4_id(r.id),
    {
        Film { id: new_id(), maker, name, iso, created_at: now_millis() }
    }

    /// "Maker Name (ISO n)".
    pub fn display_name(&self) -> (r: String)
        ensures
            r@ == self.maker@ + " "@ + self.name@ + " (ISO "@ + digits(self.iso as nat) + ")"@,
    {
        let mut s = String::from_str(self.maker.as_str());
        s.append(" ");
        s.append(self.name.as_str());
        s.append(" (ISO ");
        push_digits(&mut s, self.iso as u64);
        s.append(")");
        s
    }
}

impl Photographer {
    /// A photographer with a fresh identifier and the current time.
    pub fn new(name: String, email: Option<String>) -> (r: Photographer)
        ensures
            r.name@ == name@,
            r.email == email,
            is_v4_id(r.id),
    {
        Photographer { id: new_id(), name, email, created_at: now_millis() }
    }

    /// "Name <email>", or the name alone without an email address.
    pub fn display_name(&self) -> (r: String)
        ensures
            r@ == match self.email {
                Some(e) => self.name@ + " <"@ + e@ + ">"@,
                None => self.name@,
            },
    {
        let mut s = String::from_str(self.name.as_str());
        match &self.email {
            Some(e) => {
                s.append(" <");
                s.append(e.as_str());
                s.append(">");
            },
            None => {},
        }
        s
    }
}

impl Setup {
    /// A setup with a fresh identifier and the current time.
    pub fn new(name: String, camera_id: u128, lens_id: Option<u128>) -> (r: Setup)
        ensures
            r.name@ == name@,
            r.camera_id == camera_id,
            r.lens_id == lens_id,
            is_v4_id(r.id),
    {
        Setup { id: new_id(), name, camera_id, lens_id, created_at: now_millis() }
    }

    /// The setup's name.
    pub fn display_name(&self) -> (r: String)
        ensures
            r@ == self.name@,
    {
        String::from_str(self.name.as_str())
    }
}

/// Equipment with an identifier.
pub trait Identified {
    spec fn key(&self) -> u128;

    fn get_id(&self) -> (r: u128)
        ensures
            r == self.key(),
    ;

    /// A copy of the value.
    fn duplicate(&self) -> (r: Self) where Self: Sized
        ensures
            r == *self,
    ;
}

impl Identified for Camera {
    open spec fn key(&self) -> u128 {
        self.id
    }

    fn get_id(&self) -> (r: u128) {
        self.id
    }

    fn duplicate(&self) -> (r: Camera) {
        Camera { id: self.id, maker: self.maker.clone(), model: self.model.clone(), created_at: self.created_at }
    }
}

impl Identified for Lens {
    open spec fn key(&self) -> u128 {
        self.id
    }

    fn get_id(&self) -> (r: u128) {
        self.id
    }

    fn duplicate(&self) -> (r: Lens) {
        Lens {
            id: self.id,
            maker: self.maker.clone(),
            model: self.model.clone(),
            focal_length: self.focal_length.clone(),
            aperture: self.aperture.clone(),
            mount: self.mount.clone(),
            created_at: self.created_at,
        }
    }
}

impl Identified for Film {
    open spec fn key(&self) -> u128 {
        self.id
    }

    fn get_id(&self) -> (r: u128) {
        self.id
    }

    fn duplicate(&self) -> (r: Film) {
        Film { id: self.id, maker: self.maker.clone(), name: self.name.clone(), iso: self.iso, created_at: self.created_at }
    }
}

impl Identified for Photographer {
    open spec fn key(&self) -> u128 {
        self.id
    }

    fn get_id(&self) -> (r: u128) {
        self.id
    }

    fn duplicate(&self) -> (r: Photographer) {
        let email = match &self.email {
            Some(e) => Some(e.clone()),
            None => None,
        };
        Photographer { id: self.id, name: self.name.clone(), email, created_at: self.created_at }
    }
}

impl Identified for Setup {
    open spec fn key(&self) -> u128 {
        self.id
    }

    fn get_id(&self) -> (r: u128) {
        self.id
    }

    fn duplicate(&self) -> (r: Setup) {
        Setup {
            id: self.id,
            name: self.name.clone(),
            camera_id: self.camera_id,
            lens_id: self.lens_id,
            created_at: self.created_at,
        }
    }
}

} // verus!
