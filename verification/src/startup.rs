//! What is looked at when the application starts on Linux: whether the
//! libraries for the tray are installed, and whether the user's services
//! survive a logout.

use vstd::prelude::*;
use crate::text::{chars_of, find_in, first_occurrence};

verus! {

/// `needle` occurs in `hay`.
pub open spec fn occurs(hay: Seq<char>, needle: Seq<char>) -> bool {
    first_occurrence(hay, needle) is Some
}

/// The packages that are missing, in the order gtk, app indicator, xdo.
pub open spec fn missing_packages(gtk: bool, indicator: bool, xdo: bool) -> Seq<Seq<char>> {
    (if gtk {
        Seq::<Seq<char>>::empty()
    } else {
        seq!["libgtk-3-0"@]
    }) + (if indicator {
        Seq::<Seq<char>>::empty()
    } else {
        seq!["libayatana-appindicator3-1"@]
    }) + (if xdo {
        Seq::<Seq<char>>::empty()
    } else {
        seq!["libxdo3"@]
    })
}

/// The texts of a list of string slices.
pub open spec fn slice_texts(list: Seq<&'static str>) -> Seq<Seq<char>> {
    list.map_values(|s: &'static str| s@)
}

/// Whether one text occurs in another.
pub fn contains_text(hay: &str, needle: &str) -> (out: bool)
    ensures
        out == occurs(hay@, needle@),
{
    let text = chars_of(hay);
    let wanted = chars_of(needle);
    assert(text@.subrange(0, text@.len() as int) =~= text@);
    find_in(&text, 0, text.len(), &wanted).is_some()
}

/// Whether a shared library is installed: it is named in the loader's
/// listing, where that could be had, and was found on disk where not.
pub fn library_found(listing: Option<&str>, library: &str, on_disk: bool) -> (out: bool)
    ensures
        out == match listing {
            Some(text) => occurs(text@, library@),
            None => on_disk,
        },
{
    match listing {
        Some(text) => contains_text(text, library),
        None => on_disk,
    }
}

/// The packages to install, given which of the three libraries that the
/// tray needs were found.
pub fn check_linux_dependencies(gtk: bool, indicator: bool, xdo: bool) -> (out: Vec<&'static str>)
    ensures
        slice_texts(out@) == missing_packages(gtk, indicator, xdo),
{
    let mut out: Vec<&'static str> = Vec::new();
    if !gtk {
        out.push("libgtk-3-0");
    }
    if !indicator {
        out.push("libayatana-appindicator3-1");
    }
    if !xdo {
        out.push("libxdo3");
    }
    assert(slice_texts(out@) =~= missing_packages(gtk, indicator, xdo));
    out
}

/// Whether to warn that the application will not start at boot: it is set
/// to, but lingering is enabled neither by the marker file nor by what
/// `loginctl` says of the user.
pub fn check_linger_status(start_on_boot: bool, marker_exists: bool, loginctl: Option<&str>) -> (warn:
    bool)
    ensures
        warn == (start_on_boot && !marker_exists && !(match loginctl {
            Some(text) => occurs(text@, "Linger=yes"@),
            None => false,
        })),
{
    if !start_on_boot || marker_exists {
        return false;
    }
    match loginctl {
        Some(text) => !contains_text(text, "Linger=yes"),
        None => true,
    }
}

} // verus!
