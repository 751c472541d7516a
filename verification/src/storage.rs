use vstd::prelude::*;
use crate::error::{ErrorCode, OperationError, Result, fails_as};
use crate::models::{DataDirectoryStatus, PortableSettings};
use crate::serial::{supported_monitor_baud, validate_monitor_baud};
use crate::text::decimal;

verus! {

/// The longest production marker kept in the settings, in bytes.
pub const MAX_SETTINGS_MARKER_BYTES: usize = 256;

/// The portable data folder: chosen, and found writable, or not yet.
#[derive(Debug)]
pub struct PortableDataStore {
    root: Option<String>,
}

impl PortableDataStore {
    /// The folder, when one is set.
    pub closed spec fn root_path(&self) -> Option<Seq<char>> {
        match self.root {
            Some(r) => Some(r@),
            None => None,
        }
    }

    /// A store on a folder already found writable, or on none.
    pub fn with_root(root: Option<String>) -> (s: PortableDataStore)
        ensures
            s.root_path() == match root {
                Some(r) => Some(r@),
                None => None::<Seq<char>>,
            },
    {
        PortableDataStore { root }
    }

    /// Where the data lives, and whether it can be written.
    pub fn status(&self) -> (s: DataDirectoryStatus)
        ensures
            match self.root_path() {
                Some(p) => s.path matches Some(x) && x@ == p && s.writable,
                None => s.path is None && !s.writable,
            },
    {
        match &self.root {
            Some(r) => DataDirectoryStatus { path: Some(r.clone()), writable: true },
            None => DataDirectoryStatus { path: None, writable: false },
        }
    }

    /// Uses a folder that was found writable, and reports the new status.
    pub fn set_root(&mut self, path: String) -> (s: DataDirectoryStatus)
        ensures
            final(self).root_path() == Some(path@),
            s.path matches Some(x) && x@ == path@,
            s.writable,
    {
        self.root = Some(path);
        self.status()
    }

    /// The folder; without one, the user must choose a writable folder.
    pub fn root(&self) -> (r: Result<String>)
        ensures
            match self.root_path() {
                Some(p) => r matches Ok(x) && x@ == p,
                None => r matches Err(e) && fails_as(
                    e,
                    (ErrorCode::DataDirectoryUnwritable, "Выберите доступную для записи рабочую папку"@),
                ),
            },
    {
        match &self.root {
            Some(r) => Ok(r.clone()),
            None => Err(
                OperationError::new(
                    ErrorCode::DataDirectoryUnwritable,
                    "Выберите доступную для записи рабочую папку",
                ),
            ),
        }
    }
}

/// Only `logs` and `reports` are made inside the data folder.
pub fn check_subdir(name: &str) -> (r: Result<()>)
    ensures
        (r is Ok) == (name@ == "logs"@ || name@ == "reports"@),
        r matches Err(e) ==> fails_as(e, (ErrorCode::InternalError, "Недопустимый portable data subdirectory"@)),
{
    let given = String::from_str(name);
    let logs = String::from_str("logs");
    let reports = String::from_str("reports");
    if given == logs || given == reports {
        return Ok(());
    }
    Err(OperationError::new(ErrorCode::InternalError, "Недопустимый portable data subdirectory"))
}

/// What settings may be kept: schema 1, a production marker of at most 256
/// bytes, and a monitor rate the user interface offers.
pub fn validate_settings(settings: &PortableSettings) -> (r: Result<()>)
    ensures
        settings.schema_version != 1 ==> (r matches Err(e) && fails_as(
            e,
            (ErrorCode::PackageUnsupported, "Версия settings.json не поддерживается"@),
        )),
        settings.schema_version == 1 && vstd::utf8::encode_utf8(settings.factory_success_marker@).len()
            > 256 ==> (r matches Err(e) && fails_as(
            e,
            (ErrorCode::PackageInvalid, "Производственный UART-маркер превышает 256 байт"@),
        )),
        settings.schema_version == 1 && vstd::utf8::encode_utf8(settings.factory_success_marker@).len()
            <= 256 ==> ((r is Ok) == supported_monitor_baud(settings.monitor_baud) && (r matches Err(e)
            ==> fails_as(e, (ErrorCode::PackageInvalid, "Неподдерживаемая скорость UART-монитора"@))
            && (e.detail matches Some(d) && d@ == decimal(settings.monitor_baud as nat)))),
{
    if settings.schema_version != 1 {
        return Err(
            OperationError::new(
                ErrorCode::PackageUnsupported,
                "Версия settings.json не поддерживается",
            ),
        );
    }
    if settings.factory_success_marker.as_str().as_bytes().len() > MAX_SETTINGS_MARKER_BYTES {
        return Err(
            OperationError::new(
                ErrorCode::PackageInvalid,
                "Производственный UART-маркер превышает 256 байт",
            ),
        );
    }
    validate_monitor_baud(settings.monitor_baud)
}

} // verus!
