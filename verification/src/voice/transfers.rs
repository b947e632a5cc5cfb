use std::collections::HashMap;
use vstd::prelude::*;
use vstd::slice::slice_subrange;

use crate::voice::encoding;

verus! {

broadcast use vstd::std_specs::hash::group_hash_axioms;

/// A file or directory in a listing.
pub struct FileListEntry {
    pub path: String,
    pub name: String,
    pub size: u64,
    pub is_file: bool,
    pub timestamp: String,
}

/// A directory listing that arrives entry by entry.
pub struct FileListing {
    /// The channel and path that were asked for.
    pub asked: Option<(u64, String)>,
    pub entries: Vec<FileListEntry>,
}

/// A complete listing.
pub struct FileList {
    pub channel: u64,
    pub path: String,
    pub entries: Vec<FileListEntry>,
}

impl FileListing {
    pub fn new() -> (r: FileListing)
        ensures
            r.asked is None,
            r.entries@.len() == 0,
    {
        FileListing { asked: None, entries: Vec::new() }
    }

    /// Begins a listing; whatever an earlier one had gathered is dropped.
    pub fn begin(&mut self, channel: u64, path: &str)
        ensures
            final(self).asked matches Some((c, p)) && c == channel && p@ == path@,
            final(self).entries@ == Seq::<FileListEntry>::empty(),
    {
        self.asked = Some((channel, path.to_owned()));
        self.entries = Vec::new();
    }

    /// Takes in entries; none count while no listing is asked for.
    pub fn receive(&mut self, entries: Vec<FileListEntry>)
        ensures
            final(self).asked == old(self).asked,
            final(self).entries@ == if old(self).asked is Some {
                old(self).entries@ + entries@
            } else {
                old(self).entries@
            },
    {
        if self.asked.is_some() {
            let ghost before = self.entries@;
            let ghost more = entries@;
            let mut entries = entries;
            self.entries.append(&mut entries);
        }
    }

    /// Ends a listing.
    pub fn finish(&mut self) -> (r: Option<FileList>)
        ensures
            match old(self).asked {
                Some((channel, path)) => {
                    &&& r matches Some(l)
                    &&& l.channel == channel
                    &&& l.path == path
                    &&& l.entries@ == old(self).entries@
                    &&& final(self).asked is None
                    &&& final(self).entries@ == Seq::<FileListEntry>::empty()
                },
                None => r is None && *final(self) == *old(self),
            },
    {
        match self.asked.take() {
            Some((channel, path)) => {
                let mut entries: Vec<FileListEntry> = Vec::new();
                std::mem::swap(&mut entries, &mut self.entries);
                Some(FileList { channel, path, entries })
            },
            None => None,
        }
    }
}

/// A file to be uploaded.
pub struct Upload {
    pub channel: u64,
    pub path: String,
    pub data: Vec<u8>,
}

/// The transfers that were asked for, by the number under which each runs.
pub struct Transfers {
    pub downloads: HashMap<u16, (u64, String)>,
    pub uploads: HashMap<u16, Upload>,
}

impl Transfers {
    pub fn new() -> (r: Transfers)
        ensures
            r.downloads@ == Map::<u16, (u64, String)>::empty(),
            r.uploads@ == Map::<u16, Upload>::empty(),
    {
        Transfers { downloads: HashMap::new(), uploads: HashMap::new() }
    }

    pub fn begin_download(&mut self, handle: u16, channel: u64, path: String)
        ensures
            final(self).downloads@ == old(self).downloads@.insert(handle, (channel, path)),
            final(self).uploads@ == old(self).uploads@,
    {
        self.downloads.insert(handle, (channel, path));
    }

    pub fn begin_upload(&mut self, handle: u16, upload: Upload)
        ensures
            final(self).uploads@ == old(self).uploads@.insert(handle, upload),
            final(self).downloads@ == old(self).downloads@,
    {
        self.uploads.insert(handle, upload);
    }

    /// Takes the download that is ready.
    pub fn take_download(&mut self, handle: u16) -> (r: Option<(u64, String)>)
        ensures
            r == if old(self).downloads@.contains_key(handle) {
                Some(old(self).downloads@[handle])
            } else {
                None
            },
            final(self).downloads@ == old(self).downloads@.remove(handle),
            final(self).uploads@ == old(self).uploads@,
    {
        let ghost before = self.downloads@;
        let r = self.downloads.remove(&handle);
        assert(self.downloads@ =~= before.remove(handle));
        r
    }

    /// Takes the upload that is ready.
    pub fn take_upload(&mut self, handle: u16) -> (r: Option<Upload>)
        ensures
            r == if old(self).uploads@.contains_key(handle) {
                Some(old(self).uploads@[handle])
            } else {
                None
            },
            final(self).uploads@ == old(self).uploads@.remove(handle),
            final(self).downloads@ == old(self).downloads@,
    {
        let ghost before = self.uploads@;
        let r = self.uploads.remove(&handle);
        assert(self.uploads@ =~= before.remove(handle));
        r
    }

    /// Drops a transfer that failed, and says whether it was asked for.
    pub fn fail(&mut self, handle: u16) -> (r: bool)
        ensures
            r == (old(self).downloads@.contains_key(handle) || old(self).uploads@.contains_key(
                handle,
            )),
            final(self).downloads@ == old(self).downloads@.remove(handle),
            final(self).uploads@ == if old(self).downloads@.contains_key(handle) {
                old(self).uploads@
            } else {
                old(self).uploads@.remove(handle)
            },
    {
        if self.take_download(handle).is_some() {
            return true;
        }
        self.take_upload(handle).is_some()
    }
}

/// What is still to be sent of a file whose first bytes the server has.
pub fn upload_rest(data: &[u8], seek: u64) -> (r: &[u8])
    ensures
        r@ == if seek < data@.len() {
            data@.skip(seek as int)
        } else {
            Seq::empty()
        },
        seek <= data@.len() ==> data@.take(seek as int) + r@ == data@,
        seek > data@.len() ==> r@.len() == 0,
{
    let n: usize = data.len();
    let from: usize = if seek < n as u64 {
        seek as usize
    } else {
        n
    };
    let r = slice_subrange(data, from, n);
    assert(r@ =~= if seek < data@.len() {
        data@.skip(seek as int)
    } else {
        Seq::empty()
    });
    assert(seek <= data@.len() ==> data@.take(seek as int) + r@ =~= data@);
    r
}

/// A downloaded file as it is handed on.
pub fn download_text(data: &[u8]) -> (r: String)
    requires
        data@.len() <= usize::MAX / 4,
    ensures
        r@ == encoding::base64_text(data@),
{
    encoding::encode_base64(data)
}

} // verus!
