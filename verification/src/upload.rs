//! The upload of the three certificate files: which step comes next, and how a failed
//! step is reported. Whoever owns the port performs the steps.

use vstd::prelude::*;
use vstd::slice::slice_to_vec;
use vstd::string::*;

use crate::certs::{
    all_acceptable, build_file_list, file_label, is_file_entry, law_order_of_the_files,
    law_remote_paths_name_the_tag, local_paths, remote_path, validate_cert_files,
    validation_complaint, CertFileSizes, UploadParams,
};
use crate::device::{line_speed, management_channel, DeviceType};
use crate::text::decimal;

verus! {

/// Progress update sent back to the caller during upload.
pub struct UploadProgress {
    /// Which file is currently being uploaded (0-based index out of 3). The first update,
    /// which says that the device is connected, is about no file: there it is `usize::MAX`.
    pub file_index: usize,
    /// Human-readable label for current file.
    pub file_label: String,
    /// Remote path being written to.
    pub remote_path: String,
    /// Bytes transferred for the current file.
    pub transferred: u64,
    /// Total bytes for the current file.
    pub total: u64,
}

/// Seconds until a silent port or device counts as failed.
pub const UPLOAD_TIMEOUT_SECS: u64 = 2;

/// One thing to do. Every step but `Finish` is answered by `Upload::advance`.
pub enum UploadStep {
    /// Open the serial port, and address the device on the channel `mux_addr`.
    OpenPort { port: String, baud_rate: u32, timeout_secs: u64, mux_addr: u8 },
    /// Tell the caller that the device is connected. Failed, where the caller declines.
    Announce(UploadProgress),
    /// Set retries and timeout, and ask the device for its frame size.
    Probe { retries: u8, timeout_secs: u64 },
    /// Read the local file.
    ReadFile { local_path: String },
    /// Send these bytes to the device, `size` in number: they are what was read.
    SendFile { remote_path: String, data: Vec<u8>, size: u64 },
    /// There is nothing more to do.
    Finish(Result<(), String>),
}

enum UploadPhase {
    Opening,
    Announcing,
    Probing,
    Reading(usize),
    Sending(usize, Vec<u8>),
    Finished(Result<(), String>),
}

/// An upload that is under way.
pub struct Upload {
    port: String,
    device_type: DeviceType,
    files: Vec<(String, String, String)>,
    phase: UploadPhase,
}

/// What an upload comes to: success, or why not.
pub type Outcome = Result<(), Seq<char>>;

pub open spec fn outcome(r: Result<(), String>) -> Outcome {
    match r {
        Ok(()) => Ok(()),
        Err(e) => Err(e@),
    }
}

/// The outcome of a step: done, with the contents of the file where one was to be read, or
/// why not.
pub type StepOutcome = Result<Seq<u8>, Seq<char>>;

pub open spec fn step_outcome(r: Result<Vec<u8>, String>) -> StepOutcome {
    match r {
        Ok(contents) => Ok(contents@),
        Err(e) => Err(e@),
    }
}

/// What an upload is waiting for.
pub enum Phase {
    Opening,
    Announcing,
    Probing,
    Reading(int),
    /// The file, and its contents.
    Sending(int, Seq<u8>),
    Finished(Outcome),
}

/// A file of an upload.
pub struct FileView {
    pub local_path: Seq<char>,
    pub remote_path: Seq<char>,
    pub label: Seq<char>,
}

pub struct UploadView {
    pub port: Seq<char>,
    pub device_type: DeviceType,
    pub files: Seq<FileView>,
    pub phase: Phase,
}

/// The three files that `params` asks for.
pub open spec fn requested_files(params: UploadParams) -> Seq<FileView> {
    Seq::new(
        3,
        |i: int|
            FileView {
                local_path: local_paths(params)[i],
                remote_path: remote_path(params.sec_tag, i),
                label: file_label(i),
            },
    )
}

impl View for Upload {
    type V = UploadView;

    closed spec fn view(&self) -> UploadView {
        UploadView {
            port: self.port@,
            device_type: self.device_type,
            files: Seq::new(
                self.files@.len(),
                |i: int|
                    FileView {
                        local_path: self.files@[i].0@,
                        remote_path: self.files@[i].1@,
                        label: self.files@[i].2@,
                    },
            ),
            phase: match self.phase {
                UploadPhase::Opening => Phase::Opening,
                UploadPhase::Announcing => Phase::Announcing,
                UploadPhase::Probing => Phase::Probing,
                UploadPhase::Reading(i) => Phase::Reading(i as int),
                UploadPhase::Sending(i, data) => Phase::Sending(i as int, data@),
                UploadPhase::Finished(r) => Phase::Finished(outcome(r)),
            },
        }
    }
}

/// How a failure in the phase of `v` is reported, for the reason `e`.
pub open spec fn failure(v: UploadView, e: Seq<char>) -> Seq<char> {
    match v.phase {
        Phase::Opening => "Failed to open serial port '"@ + v.port + "': "@ + e,
        Phase::Announcing => "Upload aborted"@,
        Phase::Probing =>
            "Device did not respond (wrong port, device type, or mux address?): "@ + e,
        Phase::Reading(i) => "Failed to read '"@ + v.files[i].local_path + "': "@ + e,
        Phase::Sending(i, _) => "Failed to upload '"@ + v.files[i].local_path + "': "@ + e,
        Phase::Finished(_) => e,
    }
}

/// The phase that follows success in the phase of `v`, with `contents` where a file was read.
pub open spec fn following(v: UploadView, contents: Seq<u8>) -> Phase {
    match v.phase {
        Phase::Opening => Phase::Announcing,
        Phase::Announcing => Phase::Probing,
        Phase::Probing => Phase::Reading(0),
        Phase::Reading(i) => Phase::Sending(i, contents),
        Phase::Sending(i, _) => if i + 1 < v.files.len() {
            Phase::Reading(i + 1)
        } else {
            Phase::Finished(Ok(()))
        },
        Phase::Finished(r) => Phase::Finished(r),
    }
}

/// The upload after the outcome `o` of its step. A finished upload stays as it is.
pub open spec fn advanced(v: UploadView, o: StepOutcome) -> UploadView {
    UploadView {
        phase: match (v.phase, o) {
            (Phase::Finished(r), _) => Phase::Finished(r),
            (_, Ok(contents)) => following(v, contents),
            (_, Err(e)) => Phase::Finished(Err(failure(v, e))),
        },
        ..v
    }
}

/// `p` is the update that says that the device is connected.
pub open spec fn is_announcement(p: UploadProgress) -> bool {
    &&& p.file_index == usize::MAX
    &&& p.file_label@ == "Initializing..."@
    &&& p.remote_path@ == Seq::<char>::empty()
    &&& p.transferred == 0
    &&& p.total == 1
}

/// `step` is what `v` asks for.
pub open spec fn is_step_of(step: UploadStep, v: UploadView) -> bool {
    match v.phase {
        Phase::Opening => {
            &&& step matches UploadStep::OpenPort { port, baud_rate, timeout_secs, mux_addr }
            &&& port@ == v.port
            &&& baud_rate == line_speed(v.device_type)
            &&& timeout_secs == UPLOAD_TIMEOUT_SECS
            &&& mux_addr == management_channel(v.device_type)
        },
        Phase::Announcing => step matches UploadStep::Announce(p) && is_announcement(p),
        Phase::Probing => {
            &&& step matches UploadStep::Probe { retries, timeout_secs }
            &&& retries == 0
            &&& timeout_secs == UPLOAD_TIMEOUT_SECS
        },
        Phase::Reading(i) => {
            &&& step matches UploadStep::ReadFile { local_path }
            &&& local_path@ == v.files[i].local_path
        },
        Phase::Sending(i, contents) => {
            &&& step matches UploadStep::SendFile { remote_path, data, size }
            &&& remote_path@ == v.files[i].remote_path
            &&& data@ == contents
            &&& size == contents.len()
        },
        Phase::Finished(o) => step matches UploadStep::Finish(r) && outcome(r) == o,
    }
}

fn reported(start: &str, name: &str, reason: &str) -> (r: String)
    ensures
        r@ == start@ + name@ + "': "@ + reason@,
{
    let mut s = start.to_string();
    s.append(name);
    s.append("': ");
    s.append(reason);
    s
}

/// Starts the upload of the three certificate files. Nothing is opened or sent where a
/// file is not acceptable: the upload is then finished at once, with the complaint.
pub fn upload_certificates(params: &UploadParams, sizes: &CertFileSizes) -> (r: Upload)
    ensures
        r.wf(),
        r@.port == params.port@,
        r@.device_type == params.device_type,
        r@.files == requested_files(*params),
        all_acceptable(*sizes) ==> r@.phase == Phase::Opening,
        !all_acceptable(*sizes) ==> r@.phase == Phase::Finished(
            Err(validation_complaint(local_paths(*params), *sizes)),
        ),
{
    let files = build_file_list(params);
    let phase = match validate_cert_files(params, sizes) {
        Ok(()) => UploadPhase::Opening,
        Err(e) => UploadPhase::Finished(Err(e)),
    };
    let r = Upload { port: params.port.clone(), device_type: params.device_type, files, phase };
    assert forall|i: int| 0 <= i < 3 implies #[trigger] r@.files[i] == requested_files(
        *params,
    )[i] by {
        assert(is_file_entry(files@[i], *params, i));
    }
    assert(r@.files =~= requested_files(*params));
    r
}

impl Upload {
    /// The file in work is one of the files, and there are three of them.
    pub open spec fn wf(&self) -> bool {
        &&& self@.files.len() == 3
        &&& self@.phase matches Phase::Reading(i) ==> 0 <= i < 3
        &&& self@.phase matches Phase::Sending(i, _) ==> 0 <= i < 3
    }

    /// What is to be done now.
    pub fn step(&self) -> (r: UploadStep)
        requires
            self.wf(),
        ensures
            is_step_of(r, self@),
    {
        match &self.phase {
            UploadPhase::Opening => UploadStep::OpenPort {
                port: self.port.clone(),
                baud_rate: self.device_type.baud_rate(),
                timeout_secs: UPLOAD_TIMEOUT_SECS,
                mux_addr: self.device_type.mux_addr(),
            },
            UploadPhase::Announcing => UploadStep::Announce(
                UploadProgress {
                    file_index: usize::MAX,
                    file_label: "Initializing...".to_string(),
                    remote_path: String::new(),
                    transferred: 0,
                    total: 1,
                },
            ),
            UploadPhase::Probing => UploadStep::Probe {
                retries: 0,
                timeout_secs: UPLOAD_TIMEOUT_SECS,
            },
            UploadPhase::Reading(i) => {
                assert(self@.phase == Phase::Reading(*i as int));
                UploadStep::ReadFile { local_path: self.files[*i].0.clone() }
            },
            UploadPhase::Sending(i, data) => {
                assert(self@.phase == Phase::Sending(*i as int, data@));
                UploadStep::SendFile {
                    remote_path: self.files[*i].1.clone(),
                    data: slice_to_vec(data.as_slice()),
                    size: data.len() as u64,
                }
            },
            UploadPhase::Finished(r) => UploadStep::Finish(
                match r {
                    Ok(()) => Ok(()),
                    Err(e) => Err(e.clone()),
                },
            ),
        }
    }

    /// Goes on after the outcome of the current step. A step that reads a file is answered by
    /// its contents; of any other step the bytes do not matter.
    pub fn advance(&mut self, result: Result<Vec<u8>, String>)
        requires
            old(self).wf(),
        ensures
            final(self).wf(),
            final(self)@ == advanced(old(self)@, step_outcome(result)),
    {
        let ghost before = self@;
        let next = match &self.phase {
            UploadPhase::Opening => match result {
                Ok(_) => UploadPhase::Announcing,
                Err(e) => UploadPhase::Finished(
                    Err(reported("Failed to open serial port '", self.port.as_str(), e.as_str())),
                ),
            },
            UploadPhase::Announcing => match result {
                Ok(_) => UploadPhase::Probing,
                Err(_) => UploadPhase::Finished(Err("Upload aborted".to_string())),
            },
            UploadPhase::Probing => match result {
                Ok(_) => UploadPhase::Reading(0),
                Err(e) => {
                    let mut s =
                        "Device did not respond (wrong port, device type, or mux address?): ".to_string();
                    s.append(e.as_str());
                    UploadPhase::Finished(Err(s))
                },
            },
            UploadPhase::Reading(i) => {
                assert(before.phase == Phase::Reading(*i as int));
                match result {
                    Ok(contents) => UploadPhase::Sending(*i, contents),
                    Err(e) => UploadPhase::Finished(
                        Err(reported("Failed to read '", self.files[*i].0.as_str(), e.as_str())),
                    ),
                }
            },
            UploadPhase::Sending(i, data) => {
                assert(before.phase == Phase::Sending(*i as int, data@));
                match result {
                    Ok(_) => if *i + 1 < self.files.len() {
                        UploadPhase::Reading(*i + 1)
                    } else {
                        UploadPhase::Finished(Ok(()))
                    },
                    Err(e) => UploadPhase::Finished(
                        Err(reported("Failed to upload '", self.files[*i].0.as_str(), e.as_str())),
                    ),
                }
            },
            UploadPhase::Finished(_) => {
                return ;
            },
        };
        self.phase = next;
        assert(self@.files =~= before.files);
    }

    /// The progress update for the file that is being sent.
    pub fn progress(&self, transferred: u64, total: u64) -> (r: Option<UploadProgress>)
        requires
            self.wf(),
        ensures
            r is Some <==> self@.phase is Sending,
            r matches Some(p) ==> {
                &&& p.file_index < 3
                &&& self@.phase matches Phase::Sending(i, _) && i == p.file_index
                &&& p.file_label@ == self@.files[p.file_index as int].label
                &&& p.remote_path@ == self@.files[p.file_index as int].remote_path
                &&& p.transferred == transferred
                &&& p.total == total
            },
    {
        match &self.phase {
            UploadPhase::Sending(i, data) => {
                assert(self@.phase == Phase::Sending(*i as int, data@));
                Some(
                    UploadProgress {
                        file_index: *i,
                        file_label: self.files[*i].2.clone(),
                        remote_path: self.files[*i].1.clone(),
                        transferred,
                        total,
                    },
                )
            },
            _ => None,
        }
    }
}

// ---------------------------------------------------------------------------
// Whole uploads
// ---------------------------------------------------------------------------

/// The upload after the outcomes `os` of its steps, one after the other.
pub open spec fn run(v: UploadView, os: Seq<StepOutcome>) -> UploadView
    decreases os.len(),
{
    if os.len() == 0 {
        v
    } else {
        advanced(run(v, os.drop_last()), os.last())
    }
}

/// The phase that an upload of three files is in after the successes `os`.
pub open spec fn phase_after(os: Seq<StepOutcome>) -> Phase {
    let k = os.len() as int;
    if k == 0 {
        Phase::Opening
    } else if k == 1 {
        Phase::Announcing
    } else if k == 2 {
        Phase::Probing
    } else if k < 9 && k % 2 == 1 {
        Phase::Reading((k - 3) / 2)
    } else if k < 9 {
        Phase::Sending((k - 4) / 2, os.last()->Ok_0)
    } else {
        Phase::Finished(Ok(()))
    }
}

/// While every step succeeds, an upload opens the port, announces the connection, probes
/// the device, then reads and sends the three files in order, each as it was read, and
/// finishes with success.
pub proof fn law_steps_in_order(v: UploadView, os: Seq<StepOutcome>)
    requires
        v.phase == Phase::Opening,
        v.files.len() == 3,
        forall|j: int| 0 <= j < os.len() ==> (#[trigger] os[j]) is Ok,
    ensures
        run(v, os) == (UploadView { phase: phase_after(os), ..v }),
    decreases os.len(),
{
    if os.len() > 0 {
        let before = os.drop_last();
        assert forall|j: int| 0 <= j < before.len() implies (#[trigger] before[j]) is Ok by {
            assert(before[j] == os[j]);
        }
        law_steps_in_order(v, before);
        assert(os.last() == os[os.len() - 1]);
    }
}

/// A finished upload stays as it is: nothing more is opened, read or sent.
pub proof fn law_finished_upload_stays(v: UploadView, o: StepOutcome)
    requires
        v.phase is Finished,
    ensures
        advanced(v, o) == v,
{
}

/// The first step that fails ends the upload: it is finished with the report on that
/// step, whatever follows.
pub proof fn law_first_failure_ends(v: UploadView, os: Seq<StepOutcome>, k: int)
    requires
        v.phase == Phase::Opening,
        v.files.len() == 3,
        0 <= k < os.len(),
        k < 9,
        forall|j: int| 0 <= j < k ==> (#[trigger] os[j]) is Ok,
        os[k] is Err,
    ensures
        run(v, os).phase == Phase::Finished(
            Err(failure(UploadView { phase: phase_after(os.take(k)), ..v }, os[k]->Err_0)),
        ),
    decreases os.len(),
{
    let before = os.drop_last();
    if k == os.len() - 1 {
        assert forall|j: int| 0 <= j < before.len() implies (#[trigger] before[j]) is Ok by {
            assert(before[j] == os[j]);
        }
        law_steps_in_order(v, before);
        assert(os.take(k) =~= before);
        assert(os.last() == os[k]);
    } else {
        assert(before[k] == os[k]);
        assert forall|j: int| 0 <= j < k implies (#[trigger] before[j]) is Ok by {
            assert(before[j] == os[j]);
        }
        law_first_failure_ends(v, before, k);
        assert(os.take(k) =~= before.take(k));
    }
}

/// An upload succeeds only after all nine of its steps have succeeded.
pub proof fn law_success_needs_every_step(v: UploadView, os: Seq<StepOutcome>)
    requires
        v.phase == Phase::Opening,
        v.files.len() == 3,
    ensures
        run(v, os).phase == Phase::Finished(Ok(())) <==> (os.len() >= 9 && forall|j: int|
            0 <= j < 9 ==> (#[trigger] os[j]) is Ok),
    decreases os.len(),
{
    if os.len() > 0 {
        let before = os.drop_last();
        law_success_needs_every_step(v, before);
        assert(forall|j: int| 0 <= j < before.len() ==> before[j] == os[j]);
        if forall|j: int| 0 <= j < before.len() ==> (#[trigger] before[j]) is Ok {
            law_steps_in_order(v, before);
            if before.len() < 9 {
                assert(os.last() == os[os.len() - 1]);
            }
        } else {
            let bad = choose|j: int| 0 <= j < before.len() && !((#[trigger] before[j]) is Ok);
            lemma_first_failure(before, bad);
            let k = choose|k: int|
                0 <= k <= bad && fails_first_at(before, k);
            if k < 9 {
                law_first_failure_ends(v, before, k);
                assert(os[k] is Err);
            }
        }
    }
}

/// Step `k` is the first that fails.
pub open spec fn fails_first_at(os: Seq<StepOutcome>, k: int) -> bool {
    &&& 0 <= k < os.len()
    &&& os[k] is Err
    &&& forall|j: int| 0 <= j < k ==> (#[trigger] os[j]) is Ok
}

proof fn lemma_first_failure(os: Seq<StepOutcome>, bad: int)
    requires
        0 <= bad < os.len(),
        os[bad] is Err,
    ensures
        exists|k: int| 0 <= k <= bad && fails_first_at(os, k),
    decreases bad,
{
    if forall|j: int| 0 <= j < bad ==> (#[trigger] os[j]) is Ok {
        assert(fails_first_at(os, bad));
    } else {
        let j = choose|j: int| 0 <= j < bad && !((#[trigger] os[j]) is Ok);
        lemma_first_failure(os, j);
        let k = choose|k: int| 0 <= k <= j && fails_first_at(os, k);
        assert(0 <= k <= bad && fails_first_at(os, k));
    }
}

/// `step` sends the bytes `contents`, and says how many they are, to the remote path of file
/// `i` of `params`.
pub open spec fn sends(step: UploadStep, params: UploadParams, i: int, contents: Seq<u8>) -> bool {
    &&& step matches UploadStep::SendFile { remote_path: path, data, size }
    &&& path@ == remote_path(params.sec_tag, i)
    &&& data@ == contents
    &&& size == contents.len()
}

/// `step` reads the local file `i` of `params`.
pub open spec fn reads(step: UploadStep, params: UploadParams, i: int) -> bool {
    step matches UploadStep::ReadFile { local_path } && local_path@ == local_paths(params)[i]
}

/// An upload that succeeds has sent exactly three files, in order: each was read from its
/// local path in the step before, and sent to its remote path with the bytes that were read
/// and their number. No other step sends anything.
pub proof fn law_success_sends_what_was_read(
    params: UploadParams,
    v: UploadView,
    os: Seq<StepOutcome>,
    k: int,
    step: UploadStep,
)
    requires
        v.phase == Phase::Opening,
        v.files == requested_files(params),
        run(v, os).phase == Phase::Finished(Ok(())),
        0 <= k <= os.len(),
        is_step_of(step, run(v, os.take(k))),
    ensures
        k == 3 || k == 5 || k == 7 ==> reads(step, params, (k - 3) / 2),
        k == 4 || k == 6 || k == 8 ==> os[k - 1] is Ok && sends(
            step,
            params,
            (k - 4) / 2,
            os[k - 1]->Ok_0,
        ),
        k != 4 && k != 6 && k != 8 ==> !(step is SendFile),
{
    law_success_needs_every_step(v, os);
    let first = os.take(k);
    if k <= 9 {
        assert forall|j: int| 0 <= j < first.len() implies (#[trigger] first[j]) is Ok by {
            assert(first[j] == os[j]);
        }
        law_steps_in_order(v, first);
    } else {
        assert forall|j: int| 0 <= j < 9 implies (#[trigger] first[j]) is Ok by {
            assert(first[j] == os[j]);
        }
        law_success_needs_every_step(v, first);
    }
}

// ---------------------------------------------------------------------------
// Step by step
// ---------------------------------------------------------------------------

/// The three files of an upload: from where on this machine, to where on the device, and what
/// they are called.
pub proof fn law_files_of_an_upload(params: UploadParams)
    ensures
        requested_files(params) == seq![
            FileView {
                local_path: params.ca_path@,
                remote_path: "/storage/ca_"@ + decimal(params.sec_tag as nat) + ".crt"@,
                label: "CA Certificate"@,
            },
            FileView {
                local_path: params.client_cert_path@,
                remote_path: "/storage/client_"@ + decimal(params.sec_tag as nat) + ".crt"@,
                label: "Client Certificate"@,
            },
            FileView {
                local_path: params.client_key_path@,
                remote_path: "/storage/client_"@ + decimal(params.sec_tag as nat) + ".key"@,
                label: "Client Private Key"@,
            },
        ],
{
    law_order_of_the_files(params);
    law_remote_paths_name_the_tag(params.sec_tag);
    assert(requested_files(params) =~= seq![
        requested_files(params)[0],
        requested_files(params)[1],
        requested_files(params)[2],
    ]);
}

/// What is asked for in each phase of an upload.
pub proof fn law_what_an_upload_asks_for(v: UploadView, step: UploadStep)
    requires
        is_step_of(step, v),
    ensures
        v.phase is Opening ==> (step matches UploadStep::OpenPort {
            port,
            baud_rate,
            timeout_secs,
            mux_addr,
        } && port@ == v.port && baud_rate == line_speed(v.device_type) && timeout_secs == 2
            && mux_addr == management_channel(v.device_type)),
        v.phase is Announcing ==> (step matches UploadStep::Announce(p) && p.file_index
            == usize::MAX && p.file_label@ == "Initializing..."@ && p.remote_path@.len() == 0
            && p.transferred == 0 && p.total == 1),
        v.phase is Probing ==> (step matches UploadStep::Probe { retries, timeout_secs } && retries
            == 0 && timeout_secs == 2),
        (v.phase matches Phase::Reading(i) ==> (step matches UploadStep::ReadFile { local_path }
            && local_path@ == v.files[i].local_path)),
        (v.phase matches Phase::Sending(i, contents) ==> (step matches UploadStep::SendFile {
            remote_path: path,
            data,
            size,
        } && path@ == v.files[i].remote_path && data@ == contents && size == contents.len())),
        v.phase == Phase::Finished(Ok(())) ==> step matches UploadStep::Finish(Ok(_)),
        (v.phase matches Phase::Finished(Err(e)) ==> (step matches UploadStep::Finish(Err(s)) && s@
            == e)),
{
}

/// Where a step succeeds, the next one follows: the port is opened, the connection announced,
/// the device probed, and then each file read and sent, in order. Nothing else changes.
pub proof fn law_how_an_upload_goes_on(v: UploadView, contents: Seq<u8>)
    ensures
        ({
            let now = advanced(v, Ok(contents));
            &&& now == (UploadView { phase: now.phase, ..v })
            &&& v.phase is Opening ==> now.phase is Announcing
            &&& v.phase is Announcing ==> now.phase is Probing
            &&& v.phase is Probing ==> now.phase == Phase::Reading(0)
            &&& (v.phase matches Phase::Reading(i) ==> now.phase == Phase::Sending(i, contents))
            &&& (v.phase matches Phase::Sending(i, _) ==> {
                &&& i < v.files.len() - 1 ==> now.phase == Phase::Reading(i + 1)
                &&& i >= v.files.len() - 1 ==> now.phase == Phase::Finished(Ok(()))
            })
            &&& v.phase is Finished ==> now.phase == v.phase
        }),
{
}

/// Where a step fails, the upload ends, with a report that says which step it was and why it
/// failed. Nothing else changes.
pub proof fn law_how_an_upload_fails(v: UploadView, e: Seq<char>)
    ensures
        ({
            let now = advanced(v, Err(e));
            let report = now.phase->Finished_0->Err_0;
            &&& now == (UploadView { phase: now.phase, ..v })
            &&& !(v.phase is Finished) ==> now.phase == Phase::Finished(Err(report))
            &&& v.phase is Finished ==> now.phase == v.phase
            &&& v.phase is Opening ==> report == "Failed to open serial port '"@ + v.port + "': "@
                + e
            &&& v.phase is Announcing ==> report == "Upload aborted"@
            &&& v.phase is Probing ==> report
                == "Device did not respond (wrong port, device type, or mux address?): "@ + e
            &&& (v.phase matches Phase::Reading(i) ==> report == "Failed to read '"@
                + v.files[i].local_path + "': "@ + e)
            &&& (v.phase matches Phase::Sending(i, _) ==> report == "Failed to upload '"@
                + v.files[i].local_path + "': "@ + e)
        }),
{
}

/// The nine steps of an upload in which every step succeeds, by their number.
pub proof fn law_the_nine_steps(v: UploadView, os: Seq<StepOutcome>)
    requires
        v.phase is Opening,
        v.files.len() == 3,
        forall|j: int| 0 <= j < os.len() ==> (#[trigger] os[j]) is Ok,
    ensures
        ({
            let now = run(v, os);
            &&& now == (UploadView { phase: now.phase, ..v })
            &&& os.len() == 0 ==> now.phase is Opening
            &&& os.len() == 1 ==> now.phase is Announcing
            &&& os.len() == 2 ==> now.phase is Probing
            &&& os.len() == 3 ==> now.phase == Phase::Reading(0)
            &&& os.len() == 4 ==> now.phase == Phase::Sending(0, os[3]->Ok_0)
            &&& os.len() == 5 ==> now.phase == Phase::Reading(1)
            &&& os.len() == 6 ==> now.phase == Phase::Sending(1, os[5]->Ok_0)
            &&& os.len() == 7 ==> now.phase == Phase::Reading(2)
            &&& os.len() == 8 ==> now.phase == Phase::Sending(2, os[7]->Ok_0)
            &&& os.len() >= 9 ==> now.phase == Phase::Finished(Ok(()))
        }),
{
    law_steps_in_order(v, os);
}

/// Outcomes are taken one after the other, for what they hold.
pub proof fn law_what_outcomes_hold(
    v: UploadView,
    os: Seq<StepOutcome>,
    o: StepOutcome,
    contents: Vec<u8>,
    e: String,
)
    ensures
        run(v, Seq::empty()) == v,
        run(v, os.push(o)) == advanced(run(v, os), o),
        step_outcome(Ok(contents)) == Ok::<Seq<u8>, Seq<char>>(contents@),
        step_outcome(Err(e)) == Err::<Seq<u8>, Seq<char>>(e@),
        outcome(Ok(())) == Ok::<(), Seq<char>>(()),
        outcome(Err(e)) == Err::<(), Seq<char>>(e@),
{
    assert(os.push(o).drop_last() =~= os);
}

} // verus!
