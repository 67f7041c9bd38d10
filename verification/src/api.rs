//! Records of the JSON API: upload reports, music metadata, and the system
//! overview an administrator sees. Probing the machine happens outside the
//! core, which turns the probed figures into the response.

use vstd::prelude::*;

use crate::format::{format_size, format_size_spec};

verus! {

/// A one-line message response.
pub struct ApiInfoResponse {
    pub message: String,
}

/// The report for one uploaded file.
pub struct UploadFile {
    pub name: String,
    pub url: Option<String>,
    pub error: Option<String>,
    pub icon: Option<String>,
}

/// The metadata of an audio file, as its tags carry it.
pub struct MusicFile {
    pub title: String,
    pub album: Option<String>,
    pub artist: Option<String>,
    pub year: Option<i32>,
    pub genre: Option<String>,
    pub track: Option<u16>,
    pub cover: bool,
}

/// Mathematical image of one disk line of the system overview.
pub struct DiskV {
    pub fs: Seq<char>,
    pub used_space: nat,
    pub total_space: nat,
    pub used_space_readable: Seq<char>,
    pub total_space_readable: Seq<char>,
    pub mount_point: Seq<char>,
}

/// One disk line of the system overview.
pub struct Disk {
    pub fs: String,
    pub used_space: u64,
    pub total_space: u64,
    pub used_space_readable: String,
    pub total_space_readable: String,
    pub mount_point: String,
}

impl View for Disk {
    type V = DiskV;

    open spec fn view(&self) -> DiskV {
        DiskV {
            fs: self.fs@,
            used_space: self.used_space as nat,
            total_space: self.total_space as nat,
            used_space_readable: self.used_space_readable@,
            total_space_readable: self.total_space_readable@,
            mount_point: self.mount_point@,
        }
    }
}

impl DeepView for Disk {
    type V = DiskV;

    open spec fn deep_view(&self) -> DiskV {
        self@
    }
}

/// The system overview: memory figures and one line per mounted disk.
pub struct Sysinfo {
    pub total_mem: u64,
    pub total_mem_readable: String,
    pub used_mem: u64,
    pub used_mem_readable: String,
    pub disks: Vec<Disk>,
}

/// The disk line for one probed disk: used space is what is not available,
/// and both figures come with their readable rendering.
pub open spec fn disk_record(fs: Seq<char>, total: nat, avail: nat, mount: Seq<char>) -> DiskV {
    DiskV {
        fs: fs,
        used_space: (total - avail) as nat,
        total_space: total,
        used_space_readable: format_size_spec((total - avail) as nat),
        total_space_readable: format_size_spec(total),
        mount_point: mount,
    }
}

/// The disk lines of the overview: one per probed disk, in order, with
/// disks reporting no capacity left out.
pub open spec fn disks_spec(probed: Seq<(String, u64, u64, String)>) -> Seq<DiskV>
    decreases probed.len(),
{
    if probed.len() == 0 {
        Seq::empty()
    } else {
        let rest = disks_spec(probed.drop_last());
        let d = probed.last();
        if d.1 == 0 {
            rest
        } else {
            rest.push(disk_record(d.0@, d.1 as nat, d.2 as nat, d.3@))
        }
    }
}

/// Builds the system overview from the probed memory figures and disks,
/// each probed disk given as its filesystem name, total and available
/// bytes, and mount point.
pub fn sysinfo(total_mem: u64, used_mem: u64, probed: Vec<(String, u64, u64, String)>) -> (r:
    Sysinfo)
    requires
        total_mem < 0x4000000000000,
        used_mem < 0x4000000000000,
        forall|i: int|
            0 <= i < probed@.len() ==> (#[trigger] probed@[i]).2 <= probed@[i].1 && probed@[i].1
                < 0x4000000000000,
    ensures
        r.total_mem == total_mem,
        r.used_mem == used_mem,
        r.total_mem_readable@ == format_size_spec(total_mem as nat),
        r.used_mem_readable@ == format_size_spec(used_mem as nat),
        r.disks.deep_view() == disks_spec(probed@),
{
    let n = probed.len();
    let mut disks: Vec<Disk> = Vec::new();
    let mut i: usize = 0;
    while i < n
        invariant
            i <= n,
            n == probed@.len(),
            forall|j: int|
                0 <= j < probed@.len() ==> (#[trigger] probed@[j]).2 <= probed@[j].1
                    && probed@[j].1 < 0x4000000000000,
            disks.deep_view() =~= disks_spec(probed@.take(i as int)),
        decreases n - i,
    {
        proof {
            assert(probed@.take(i as int + 1).drop_last() =~= probed@.take(i as int));
            assert(probed@.take(i as int + 1).last() == probed@[i as int]);
        }
        let total = probed[i].1;
        if total != 0 {
            let avail = probed[i].2;
            let used = total - avail;
            let d = Disk {
                fs: probed[i].0.clone(),
                used_space: used,
                total_space: total,
                used_space_readable: format_size(used),
                total_space_readable: format_size(total),
                mount_point: probed[i].3.clone(),
            };
            let ghost before = disks.deep_view();
            proof {
                assert(d@ == disk_record(probed@[i as int].0@, probed@[i as int].1 as nat,
                    probed@[i as int].2 as nat, probed@[i as int].3@));
            }
            disks.push(d);
            proof {
                assert(disks.deep_view() =~= before.push(d@));
            }
        }
        i = i + 1;
    }
    proof {
        assert(probed@.take(n as int) =~= probed@);
    }
    Sysinfo {
        total_mem,
        total_mem_readable: format_size(total_mem),
        used_mem,
        used_mem_readable: format_size(used_mem),
        disks,
    }
}

} // verus!
