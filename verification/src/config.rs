//! The wallpaper cache: which day's image to fetch, where it is stored and
//! which cached file belongs to today.

use crate::text::{
    chars_of, contains_chars, decimal, decimal_chars, last_segment, last_segment_chars, occurs_in,
    string_from_chars,
};
use vstd::prelude::*;
use vstd::string::*;

verus! {

/// A day relative to today, as the image service counts them.
pub enum Day {
    Today,
}

/// The index of a day in the image service's query: how many days back it lies.
pub open spec fn day_index(day: Day) -> u32 {
    match day {
        Day::Today => 0,
    }
}

impl Day {
    /// The service's index of this day.
    pub fn to_value(&self) -> (v: u32)
        ensures
            v == day_index(*self),
    {
        match self {
            Day::Today => 0,
        }
    }
}

/// The wallpaper cache's settings; its directory is the XDG data home of
/// `water-bg`.
pub struct Config {}

/// One entry of the cache directory: its full path, its file name, and
/// whether it is a regular file.
pub struct CacheEntry {
    pub path: String,
    pub file_name: String,
    pub is_file: bool,
}

/// An entry that holds the image of the day stamped `date`: a file whose
/// name contains the stamp.
pub open spec fn entry_matches(e: CacheEntry, date: Seq<char>) -> bool {
    e.is_file && occurs_in(e.file_name@, date)
}

/// The index of the first entry, in directory order, that holds the image
/// of the day stamped `date`; `None` when no entry does.
pub fn first_cached_entry(entries: &[CacheEntry], date: &str) -> (r: Option<usize>)
    ensures
        r matches Some(i) ==> i < entries@.len() && entry_matches(entries@[i as int], date@)
            && forall|j: int| 0 <= j < i ==> !entry_matches(#[trigger] entries@[j], date@),
        r matches Some(i) ==> entries@[i as int].is_file && occurs_in(
            entries@[i as int].file_name@,
            date@,
        ),
        r is None ==> forall|i: int|
            0 <= i < entries@.len() ==> !entry_matches(#[trigger] entries@[i], date@),
        r is None ==> forall|i: int|
            0 <= i < entries@.len() && #[trigger] entries@[i].is_file ==> !occurs_in(
                entries@[i].file_name@,
                date@,
            ),
{
    let needle = chars_of(date);
    let mut i: usize = 0;
    while i < entries.len()
        invariant
            i <= entries@.len(),
            needle@ == date@,
            forall|j: int| 0 <= j < i ==> !entry_matches(#[trigger] entries@[j], date@),
        decreases entries@.len() - i,
    {
        let e = &entries[i];
        if e.is_file {
            let name = chars_of(e.file_name.as_str());
            if contains_chars(&name, &needle) {
                return Some(i);
            }
        }
        i = i + 1;
    }
    None
}

/// A file whose name holds the whole stamp, anywhere in it, holds that
/// day's image; a name that lacks any one character of the stamp does not,
/// nor does a directory.
pub proof fn lemma_cached_file_of_day(e: CacheEntry, date: Seq<char>, pre: Seq<char>, post: Seq<char>, j: int)
    ensures
        e.is_file && e.file_name@ == pre + date + post ==> entry_matches(e, date),
        !e.is_file ==> !entry_matches(e, date),
        0 <= j < date.len() && (forall|k: int| 0 <= k < e.file_name@.len() ==> e.file_name@[k]
            != date[j]) ==> !entry_matches(e, date),
{
    let name = e.file_name@;
    if e.is_file && name == pre + date + post {
        assert(name.subrange(pre.len() as int, (pre.len() + date.len()) as int) =~= date);
    }
    if 0 <= j < date.len() && (forall|k: int| 0 <= k < name.len() ==> name[k] != date[j]) {
        if entry_matches(e, date) {
            let i = choose|i: int|
                0 <= i && i + date.len() <= name.len() && #[trigger] name.subrange(i, i + date.len())
                    == date;
            assert(name.subrange(i, i + date.len())[j] == name[i + j]);
            assert(false);
        }
    }
}

/// The path of the first entry, in directory order, that holds the image of
/// the day stamped `date`; `None` when no entry does.
pub fn pick_cached_image(entries: &[CacheEntry], date: &str) -> (r: Option<String>)
    ensures
        r matches Some(p) ==> exists|i: int|
            0 <= i < entries@.len() && #[trigger] entry_matches(entries@[i], date@) && p@
                == entries@[i].path@ && forall|j: int|
                0 <= j < i ==> !entry_matches(#[trigger] entries@[j], date@),
        r is None ==> forall|i: int|
            0 <= i < entries@.len() ==> !entry_matches(#[trigger] entries@[i], date@),
{
    match first_cached_entry(entries, date) {
        Some(i) => {
            let p = entries[i].path.clone();
            assert(entry_matches(entries@[i as int], date@));
            Some(p)
        },
        None => None,
    }
}

/// The image service's query for `day`.
pub open spec fn image_api_url_of(day: Day) -> Seq<char> {
    "https://bing.biturl.top/?resolution=UHD&format=json&index="@ + decimal(day_index(day) as nat)
        + "&mkt=zh-CN"@
}

/// The address that asks the image service for the image of `day`.
pub fn image_api_url(day: &Day) -> (r: String)
    ensures
        r@ == image_api_url_of(*day),
{
    let mut url = String::from_str("https://bing.biturl.top/?resolution=UHD&format=json&index=");
    let digits = decimal_chars(day.to_value());
    let index = string_from_chars(&digits);
    url.append(index.as_str());
    url.append("&mkt=zh-CN");
    url
}

/// Where the image at `image_url`, of the day stamped `end_date`, is kept:
/// `dir/end_date.ext`, with `ext` the text after the last `.` of the address.
pub open spec fn cached_image_path_of(dir: Seq<char>, end_date: Seq<char>, image_url: Seq<char>) -> Seq<char> {
    dir + "/"@ + end_date + "."@ + last_segment(image_url)
}

/// The cache path of a downloaded image.
pub fn cached_image_path(dir: &str, end_date: &str, image_url: &str) -> (r: String)
    ensures
        r@ == cached_image_path_of(dir@, end_date@, image_url@),
{
    let url = chars_of(image_url);
    let suffix_chars = last_segment_chars(&url);
    let suffix = string_from_chars(&suffix_chars);
    let mut path = String::from_str(dir);
    path.append("/");
    path.append(end_date);
    path.append(".");
    path.append(suffix.as_str());
    path
}

} // verus!
