use vstd::prelude::*;
use crate::error::{ErrorCode, OperationError, Result, fails_as, same_error};
use crate::flashing::{OwnedFlashSegment, check_device_chip, metadata_address, plan_update_segments};
use crate::loading::{LoadedPackage, file_lookup};
use crate::manifest::{ChipFamily, PackageKind, chip_name};
use crate::operation::{OperationStage, stage_is_active, transition_allowed};
use crate::ota::{
    EntryKind, LayoutView, PartitionEntry, UpdateLayout, entries_view, find_first, first_of_kind,
    layout_arithmetic_check, layout_arithmetic_ok, lemma_switch_sector_within_flash, opt_bytes,
    ends_fit, entries_end_within_u32,
    select_update_layout, spec_otadata_sector, spec_select_update_layout,
};
use crate::text::{decimal, hex_upper, u32_to_hex_upper, u64_to_decimal};

verus! {

// ---------------------------------------------------------------------------
// What a run reports, asks for and is told
// ---------------------------------------------------------------------------

/// A report of a running operation: a change of stage, or a log line.
#[derive(Debug)]
pub enum Notice {
    State { stage: OperationStage, message: String, error: Option<OperationError> },
    Log { stage: OperationStage, level: String, message: String },
}

/// The stage a notice moves the operation to, when it changes the stage.
pub open spec fn notice_stage(n: Notice) -> Option<OperationStage> {
    match n {
        Notice::State { stage, .. } => Some(stage),
        Notice::Log { .. } => None,
    }
}

/// A change of stage without an error.
pub open spec fn is_state(n: Notice, stage: OperationStage, message: Seq<char>) -> bool {
    n matches Notice::State { stage: s, message: m, error: None } && s == stage && m@ == message
}

/// A change of stage that carries an error.
pub open spec fn is_error_state(n: Notice, stage: OperationStage, message: Seq<char>, error: OperationError) -> bool {
    n matches Notice::State { stage: s, message: m, error: Some(e) } && s == stage && m@ == message
        && same_error(e, error)
}

/// A log line.
pub open spec fn is_log(n: Notice, stage: OperationStage, level: Seq<char>, message: Seq<char>) -> bool {
    n matches Notice::Log { stage: s, level: l, message: m } && s == stage && l@ == level && m@ == message
}

/// A run may report `to` after `from`: an allowed transition, or the
/// failure of an operation under way.
pub open spec fn may_report(from: OperationStage, to: OperationStage) -> bool {
    transition_allowed(from, to) || (to == OperationStage::Failed && stage_is_active(from))
}

/// The stage reached after the notices.
pub open spec fn stage_after(from: OperationStage, notices: Seq<Notice>) -> OperationStage
    decreases notices.len(),
{
    if notices.len() == 0 {
        from
    } else {
        match notice_stage(notices.last()) {
            Some(s) => s,
            None => stage_after(from, notices.drop_last()),
        }
    }
}

/// Every change of stage in the notices is one a run may report.
pub open spec fn stages_follow(from: OperationStage, notices: Seq<Notice>) -> bool
    decreases notices.len(),
{
    if notices.len() == 0 {
        true
    } else {
        &&& stages_follow(from, notices.drop_last())
        &&& (notice_stage(notices.last()) matches Some(s) ==> may_report(
            stage_after(from, notices.drop_last()),
            s,
        ))
    }
}

proof fn lemma_follow_push(from: OperationStage, ns: Seq<Notice>, n: Notice)
    ensures
        stage_after(from, ns.push(n)) == (match notice_stage(n) {
            Some(s) => s,
            None => stage_after(from, ns),
        }),
        stages_follow(from, ns.push(n)) == (stages_follow(from, ns) && (notice_stage(n) matches Some(
            s,
        ) ==> may_report(stage_after(from, ns), s))),
{
    assert(ns.push(n).drop_last() =~= ns);
}

proof fn lemma_follow_concat(from: OperationStage, a: Seq<Notice>, b: Seq<Notice>)
    requires
        stages_follow(from, a),
        stages_follow(stage_after(from, a), b),
    ensures
        stages_follow(from, a + b),
        stage_after(from, a + b) == stage_after(stage_after(from, a), b),
    decreases b.len(),
{
    if b.len() == 0 {
        assert(a + b =~= a);
    } else {
        lemma_follow_concat(from, a, b.drop_last());
        assert((a + b).drop_last() =~= a + b.drop_last());
        assert((a + b).last() == b.last());
    }
}

/// Appends a change of stage, keeping track of the stage reached.
fn push_state(
    notices: &mut Vec<Notice>,
    stage: &mut OperationStage,
    Ghost(from): Ghost<OperationStage>,
    next: OperationStage,
    message: &str,
    error: Option<OperationError>,
)
    requires
        stages_follow(from, old(notices)@),
        *old(stage) == stage_after(from, old(notices)@),
        may_report(*old(stage), next),
    ensures
        final(notices)@ == old(notices)@.push(
            Notice::State { stage: next, message: final(notices)@.last()->State_message, error },
        ),
        final(notices)@.last()->State_message@ == message@,
        stages_follow(from, final(notices)@),
        *final(stage) == next,
        *final(stage) == stage_after(from, final(notices)@),
{
    let n = Notice::State { stage: next, message: String::from_str(message), error };
    proof {
        lemma_follow_push(from, notices@, n);
    }
    notices.push(n);
    *stage = next;
}

/// Appends a log line; the stage stays.
fn push_log(
    notices: &mut Vec<Notice>,
    stage: OperationStage,
    Ghost(from): Ghost<OperationStage>,
    at: OperationStage,
    level: &str,
    message: String,
)
    requires
        stages_follow(from, old(notices)@),
        stage == stage_after(from, old(notices)@),
    ensures
        final(notices)@.len() == old(notices)@.len() + 1,
        final(notices)@.drop_last() == old(notices)@,
        is_log(final(notices)@.last(), at, level@, message@),
        stages_follow(from, final(notices)@),
        stage == stage_after(from, final(notices)@),
{
    let n = Notice::Log { stage: at, level: String::from_str(level), message };
    proof {
        lemma_follow_push(from, notices@, n);
    }
    notices.push(n);
    assert(notices@.drop_last() =~= old(notices)@);
}

/// The report of a failed run: the stage `Failed`, with the error's message.
pub fn failure_notice(error: &OperationError) -> (n: Notice)
    ensures
        is_error_state(n, OperationStage::Failed, error.message@, *error),
{
    Notice::State {
        stage: OperationStage::Failed,
        message: error.message.clone(),
        error: Some(error.duplicate()),
    }
}

/// What a run waits for next.
#[derive(Debug, Clone, Copy, PartialEq, Eq, Structural)]
pub enum FlowPhase {
    Connecting,
    ReadingTable,
    ReadingOtaData,
    Erasing,
    Writing,
    StartingMonitor,
    AwaitingMarker,
    Done,
}

/// What the outside work of a run gave.
#[derive(Debug)]
pub enum FlowEvent {
    /// The ROM bootloader answered: the board's chip and flash size.
    Connected { chip: ChipFamily, flash_size_bytes: u64 },
    /// A partition table was found on the board.
    TableFound { offset: u32, entries: Vec<PartitionEntry> },
    /// The `otadata` partition was read.
    OtaDataRead { bytes: Vec<u8> },
    Erased,
    Written,
    MonitorStarted,
    MarkerMatched,
    MonitorDisconnected { detail: String },
    MarkerTimedOut,
    /// The outside work failed.
    Failed { error: OperationError },
}

/// The outside work a run asks for next, or how it ended.
#[derive(Debug)]
pub enum FlowAction {
    Connect,
    ReadPartitionTable { declared_offset: Option<u32> },
    ReadRegion { address: u32, size: u32 },
    EraseAll,
    Write { segments: Vec<OwnedFlashSegment> },
    StartMonitor { baud: u32, marker: String },
    AwaitMarker { timeout_ms: u64 },
    /// The run is over; the board's start was confirmed or not, and why not.
    Finish { boot_confirmed: bool, error: Option<OperationError> },
    /// The run stopped with an error.
    Abort { error: OperationError },
}

// ---------------------------------------------------------------------------
// Updating one board in the field
// ---------------------------------------------------------------------------

/// An update run: what it knows of the package, the request and the board.
#[derive(Debug)]
pub struct UpdateFlow {
    pub phase: FlowPhase,
    /// The last stage reported.
    pub stage: OperationStage,
    pub target_chips: Vec<ChipFamily>,
    pub declared_offset: Option<u32>,
    pub application: Vec<u8>,
    pub rollback_enabled: bool,
    pub confirm_in_place: bool,
    pub monitor_baud: u32,
    pub success_marker: String,
    pub success_timeout_ms: u64,
    pub flash_size_bytes: u64,
    pub entries: Vec<PartitionEntry>,
}

impl UpdateFlow {
    /// The events the run can take in its phase; the layout's arithmetic
    /// must stay in range where it is decided.
    pub open spec fn accepts(&self, event: FlowEvent) -> bool {
        match (self.phase, event) {
            (FlowPhase::Done, _) => false,
            (_, FlowEvent::Failed { .. }) => true,
            (FlowPhase::Connecting, FlowEvent::Connected { .. }) => true,
            (FlowPhase::ReadingTable, FlowEvent::TableFound { entries, .. }) => ends_fit(entries_view(entries@)) && (first_of_kind(
                entries_view(entries@),
                EntryKind::OtaData,
            ) is Some || (entries@.len() <= u32::MAX && layout_arithmetic_ok(
                entries_view(entries@),
                None,
                self.flash_size_bytes,
                self.application@.len() as u64,
            ))),
            (FlowPhase::ReadingOtaData, FlowEvent::OtaDataRead { bytes }) => self.entries@.len()
                <= u32::MAX && layout_arithmetic_ok(
                entries_view(self.entries@),
                Some(bytes@),
                self.flash_size_bytes,
                self.application@.len() as u64,
            ),
            (FlowPhase::Writing, FlowEvent::Written) => true,
            (FlowPhase::StartingMonitor, FlowEvent::MonitorStarted) => true,
            (FlowPhase::AwaitingMarker, FlowEvent::MarkerMatched) => true,
            (FlowPhase::AwaitingMarker, FlowEvent::MonitorDisconnected { .. }) => true,
            (FlowPhase::AwaitingMarker, FlowEvent::MarkerTimedOut) => true,
            _ => false,
        }
    }

    /// The phase, the stage reported and the board's flash size fit together.
    pub open spec fn wf(&self) -> bool {
        &&& ends_fit(entries_view(self.entries@))
        &&& match self.phase {
            FlowPhase::Connecting | FlowPhase::ReadingTable | FlowPhase::ReadingOtaData => self.stage
                == OperationStage::Connecting,
            FlowPhase::Writing => self.stage == OperationStage::Writing,
            FlowPhase::StartingMonitor => self.stage == OperationStage::Resetting,
            FlowPhase::AwaitingMarker => self.stage == OperationStage::Monitoring,
            FlowPhase::Erasing => false,
            FlowPhase::Done => true,
        }
    }

    /// Starts an update with a loaded package: it must be an update, and
    /// its first segment is the application to write.
    pub fn start(package: &LoadedPackage, confirm_in_place: bool) -> (r: Result<(UpdateFlow, Vec<Notice>, FlowAction)>)
        requires
            package.validated.manifest.segments@.len() > 0,
        ensures
            package.validated.manifest.kind != PackageKind::Update ==> (r matches Err(e) && fails_as(
                e,
                (ErrorCode::PackageInvalid, "В клиентском режиме нужен пакет kind=update"@),
            )),
            package.validated.manifest.kind == PackageKind::Update ==> match file_lookup(
                package.snapshot(),
                package.validated.manifest.segments@[0].file@,
            ) {
                None => r matches Err(e) && fails_as(
                    e,
                    (ErrorCode::PackageFileMissing, "Проверенный BIN отсутствует в снимке папки"@),
                ),
                Some(application) => r matches Ok((flow, notices, action)) && {
                    let m = package.validated.manifest;
                    &&& flow.phase == FlowPhase::Connecting
                    &&& flow.stage == OperationStage::Connecting
                    &&& flow.wf()
                    &&& flow.target_chips@ == m.target_chips@
                    &&& flow.declared_offset == package.device_partition_table_offset
                    &&& flow.application@ == application
                    &&& flow.rollback_enabled == m.ota.rollback_enabled
                    &&& flow.confirm_in_place == confirm_in_place
                    &&& flow.monitor_baud == m.monitor.baud
                    &&& flow.success_marker@ == m.monitor.success_marker@
                    &&& flow.success_timeout_ms == m.monitor.success_timeout_ms
                    &&& notices@.len() == 2
                    &&& is_state(notices@[0], OperationStage::Detecting, "Определение подключённой ESP32"@)
                    &&& is_state(notices@[1], OperationStage::Connecting, "Подключение к ROM bootloader"@)
                    &&& stages_follow(OperationStage::Validating, notices@)
                    &&& action is Connect
                },
            },
    {
        let m = &package.validated.manifest;
        if m.kind != PackageKind::Update {
            return Err(
                OperationError::new(
                    ErrorCode::PackageInvalid,
                    "В клиентском режиме нужен пакет kind=update",
                ),
            );
        }
        let bytes = package.segment_bytes(m.segments[0].file.as_str())?;
        let application = vstd::slice::slice_to_vec(bytes);
        let mut notices: Vec<Notice> = Vec::new();
        let mut stage = OperationStage::Validating;
        let ghost from = OperationStage::Validating;
        push_state(
            &mut notices,
            &mut stage,
            Ghost(from),
            OperationStage::Detecting,
            "Определение подключённой ESP32",
            None,
        );
        push_state(
            &mut notices,
            &mut stage,
            Ghost(from),
            OperationStage::Connecting,
            "Подключение к ROM bootloader",
            None,
        );
        proof {
            reveal_strlit("Определение подключённой ESP32");
            reveal_strlit("Подключение к ROM bootloader");
        }
        let flow = UpdateFlow {
            phase: FlowPhase::Connecting,
            stage,
            target_chips: m.target_chips.clone(),
            declared_offset: package.device_partition_table_offset,
            application,
            rollback_enabled: m.ota.rollback_enabled,
            confirm_in_place,
            monitor_baud: m.monitor.baud,
            success_marker: m.monitor.success_marker.clone(),
            success_timeout_ms: m.monitor.success_timeout_ms,
            flash_size_bytes: 0,
            entries: Vec::new(),
        };
        Ok((flow, notices, FlowAction::Connect))
    }
}

/// The run stops with a failure, reported as the stage `Failed`.
pub open spec fn aborts_as(notices: Seq<Notice>, action: FlowAction, f: crate::error::Failure) -> bool {
    &&& action matches FlowAction::Abort { error }
    &&& fails_as(action->Abort_error, f)
    &&& notices.len() == 1
    &&& is_error_state(notices[0], OperationStage::Failed, f.1, action->Abort_error)
}

/// The settings of two update runs are the same.
pub open spec fn same_update_config(a: UpdateFlow, b: UpdateFlow) -> bool {
    &&& a.target_chips@ == b.target_chips@
    &&& a.declared_offset == b.declared_offset
    &&& a.rollback_enabled == b.rollback_enabled
    &&& a.confirm_in_place == b.confirm_in_place
    &&& a.monitor_baud == b.monitor_baud
    &&& a.success_marker@ == b.success_marker@
    &&& a.success_timeout_ms == b.success_timeout_ms
}

/// What an update run does once the layout is decided on the board's
/// partitions and `otadata`: it stops on a refused layout or an
/// unconfirmed in-place update; otherwise it logs the plan, reports
/// writing and asks to write the application (and for OTA the switch
/// sector after it).
pub open spec fn decided(
    old_flow: UpdateFlow,
    new_flow: UpdateFlow,
    notices: Seq<Notice>,
    action: FlowAction,
    es: Seq<crate::ota::PartitionView>,
    otadata: Option<Seq<u8>>,
) -> bool {
    match spec_select_update_layout(
        es,
        otadata,
        old_flow.flash_size_bytes,
        old_flow.application@.len() as u64,
        old_flow.rollback_enabled,
    ) {
        Err(f) => new_flow.phase == FlowPhase::Done && aborts_as(notices, action, f),
        Ok(LayoutView::InPlace { target }) => if !old_flow.confirm_in_place {
            &&& new_flow.phase == FlowPhase::Done
            &&& aborts_as(
                notices,
                action,
                (ErrorCode::InPlaceConfirmationRequired, "На устройстве нет резервного OTA-слота"@),
            )
            &&& action->Abort_error.detail matches Some(d) && d@
                == "Обновление будет выполнено in-place в раздел "@ + target.label
        } else {
            &&& new_flow.phase == FlowPhase::Writing
            &&& notices.len() == 2
            &&& is_log(
                notices[0],
                OperationStage::Connecting,
                "WARN"@,
                "In-place update "@ + target.label + ": не отключайте питание"@,
            )
            &&& is_state(notices[1], OperationStage::Writing, "Запись прошивки на скорости 921600"@)
            &&& action matches FlowAction::Write { segments }
            &&& action->Write_segments@.len() == 1
            &&& action->Write_segments@[0].address == target.offset
            &&& action->Write_segments@[0].data@ == old_flow.application@
        },
        Ok(LayoutView::Ota { target, ota_data, switch }) => {
            &&& new_flow.phase == FlowPhase::Writing
            &&& notices.len() == 2
            &&& is_log(
                notices[0],
                OperationStage::Connecting,
                "INFO"@,
                "Безопасное OTA: запись "@ + target.label + " и переключение sequence "@ + decimal(
                    switch.target_sequence as nat,
                ),
            )
            &&& is_state(notices[1], OperationStage::Writing, "Запись прошивки на скорости 921600"@)
            &&& action matches FlowAction::Write { segments }
            &&& action->Write_segments@.len() == 2
            &&& action->Write_segments@[0].address == target.offset
            &&& action->Write_segments@[0].data@ == old_flow.application@
            &&& action->Write_segments@[1].address == metadata_address(ota_data, switch)
            &&& action->Write_segments@[1].data@ == spec_otadata_sector(switch)
        },
    }
}

/// The log line that announces a layout: a warning for a confirmed
/// in-place update, the target and new sequence for OTA.
fn layout_log(layout: &UpdateLayout, confirm_in_place: bool) -> (r: Option<(&'static str, String)>)
    ensures
        match layout@ {
            LayoutView::InPlace { target } => if confirm_in_place {
                r matches Some((l, m)) && l@ == "WARN"@ && m@ == "In-place update "@ + target.label
                    + ": не отключайте питание"@
            } else {
                r is None
            },
            LayoutView::Ota { target, switch, .. } => r matches Some((l, m)) && l@ == "INFO"@ && m@
                == "Безопасное OTA: запись "@ + target.label + " и переключение sequence "@ + decimal(
                switch.target_sequence as nat,
            ),
        },
{
    proof {
        reveal_strlit("WARN");
        reveal_strlit("INFO");
        reveal_strlit("In-place update ");
        reveal_strlit(": не отключайте питание");
        reveal_strlit("Безопасное OTA: запись ");
        reveal_strlit(" и переключение sequence ");
    }
    match layout {
        UpdateLayout::InPlace { target } => {
            if confirm_in_place {
                let mut message = String::from_str("In-place update ");
                message.append(target.label.as_str());
                message.append(": не отключайте питание");
                Some(("WARN", message))
            } else {
                None
            }
        },
        UpdateLayout::Ota { target, switch, .. } => {
            let mut message = String::from_str("Безопасное OTA: запись ");
            message.append(target.label.as_str());
            message.append(" и переключение sequence ");
            let number = u64_to_decimal(switch.target_sequence as u64);
            message.append(number.as_str());
            Some(("INFO", message))
        },
    }
}

impl UpdateFlow {
    /// Whether the run can take the event now; see [`UpdateFlow::accepts`].
    pub fn can_take(&self, event: &FlowEvent) -> (b: bool)
        ensures
            b == self.accepts(*event),
    {
        match (self.phase, event) {
            (FlowPhase::Done, _) => false,
            (_, FlowEvent::Failed { .. }) => true,
            (FlowPhase::Connecting, FlowEvent::Connected { .. }) => true,
            (FlowPhase::ReadingTable, FlowEvent::TableFound { entries, .. }) => {
                entries_end_within_u32(entries.as_slice()) && (find_first(
                    entries.as_slice(),
                    EntryKind::OtaData,
                ).is_some() || layout_arithmetic_check(
                    entries.as_slice(),
                    None,
                    self.flash_size_bytes,
                    self.application.len() as u64,
                ))
            },
            (FlowPhase::ReadingOtaData, FlowEvent::OtaDataRead { bytes }) => layout_arithmetic_check(
                self.entries.as_slice(),
                Some(bytes.as_slice()),
                self.flash_size_bytes,
                self.application.len() as u64,
            ),
            (FlowPhase::Writing, FlowEvent::Written) => true,
            (FlowPhase::StartingMonitor, FlowEvent::MonitorStarted) => true,
            (FlowPhase::AwaitingMarker, FlowEvent::MarkerMatched) => true,
            (FlowPhase::AwaitingMarker, FlowEvent::MonitorDisconnected { .. }) => true,
            (FlowPhase::AwaitingMarker, FlowEvent::MarkerTimedOut) => true,
            _ => false,
        }
    }

    /// Ends the run with an error.
    fn abort(&mut self, notices: Vec<Notice>, Ghost(from): Ghost<OperationStage>, error: OperationError) -> (r: (Vec<Notice>, FlowAction))
        requires
            stage_is_active(old(self).stage),
            stages_follow(from, notices@),
            old(self).stage == stage_after(from, notices@),
        ensures
            stages_follow(from, r.0@),
            final(self).stage == stage_after(from, r.0@),
            final(self).phase == FlowPhase::Done,
            final(self).stage == OperationStage::Failed,
            final(self).flash_size_bytes == old(self).flash_size_bytes,
            final(self).entries == old(self).entries,
            final(self).application == old(self).application,
            same_update_config(*final(self), *old(self)),
            r.0@ == notices@.push(r.0@.last()),
            is_error_state(r.0@.last(), OperationStage::Failed, error.message@, error),
            r.1 == (FlowAction::Abort { error }),
    {
        let mut notices = notices;
        let n = failure_notice(&error);
        proof {
            lemma_follow_push(from, notices@, n);
        }
        notices.push(n);
        self.phase = FlowPhase::Done;
        self.stage = OperationStage::Failed;
        (notices, FlowAction::Abort { error })
    }

    /// Decides the layout and plans the writes; see [`decided`].
    #[verifier::rlimit(60)]
    #[verifier::spinoff_prover]
    fn decide(&mut self, otadata: Option<Vec<u8>>) -> (r: (Vec<Notice>, FlowAction))
        requires
            old(self).wf(),
            old(self).phase == FlowPhase::ReadingTable || old(self).phase == FlowPhase::ReadingOtaData,
            old(self).entries@.len() <= u32::MAX,
            layout_arithmetic_ok(
                entries_view(old(self).entries@),
                match otadata {
                    Some(b) => Some(b@),
                    None => None,
                },
                old(self).flash_size_bytes,
                old(self).application@.len() as u64,
            ),
        ensures
            final(self).wf(),
            same_update_config(*final(self), *old(self)),
            final(self).flash_size_bytes == old(self).flash_size_bytes,
            final(self).entries == old(self).entries,
            stages_follow(old(self).stage, r.0@),
            final(self).stage == stage_after(old(self).stage, r.0@),
            decided(
                *old(self),
                *final(self),
                r.0@,
                r.1,
                entries_view(old(self).entries@),
                match otadata {
                    Some(b) => Some(b@),
                    None => None,
                },
            ),
    {
        let ghost from = self.stage;
        let ghost es = entries_view(self.entries@);
        let ghost ov = match &otadata {
            Some(b) => Some(b@),
            None => None,
        };
        let notices: Vec<Notice> = Vec::new();
        let layout = match select_update_layout(
            self.entries.as_slice(),
            match &otadata {
                Some(b) => Some(b.as_slice()),
                None => None,
            },
            self.flash_size_bytes,
            self.application.len() as u64,
            self.rollback_enabled,
        ) {
            Ok(layout) => layout,
            Err(error) => {
                let r = self.abort(notices, Ghost(from), error);
                assert(r.0@ =~= seq![r.0@.last()]);
                return r;
            },
        };
        proof {
            lemma_switch_sector_within_flash(
                es,
                ov,
                self.flash_size_bytes,
                self.application@.len() as u64,
                self.rollback_enabled,
            );
        }
        let mut notices: Vec<Notice> = Vec::new();
        let mut stage = self.stage;
        match layout_log(&layout, self.confirm_in_place) {
            Some((level, message)) => push_log(&mut notices, stage, Ghost(from), OperationStage::Connecting, level, message),
            None => {},
        }
        let mut application: Vec<u8> = Vec::new();
        core::mem::swap(&mut application, &mut self.application);
        let ghost app = application@;
        let confirm = self.confirm_in_place;
        match plan_update_segments(layout, application, confirm) {
            Err(error) => {
                self.application = Vec::new();
                proof {
                    assert(notices@.len() == 0);
                }
                let mut n2: Vec<Notice> = Vec::new();
                let n = failure_notice(&error);
                n2.push(n);
                self.phase = FlowPhase::Done;
                self.stage = OperationStage::Failed;
                proof {
                    lemma_follow_push(from, Seq::empty(), n);
                    assert(Seq::<Notice>::empty().push(n) =~= n2@);
                }
                (n2, FlowAction::Abort { error })
            },
            Ok(segments) => {
                push_state(
                    &mut notices,
                    &mut stage,
                    Ghost(from),
                    OperationStage::Writing,
                    "Запись прошивки на скорости 921600",
                    None,
                );
                proof {
                    reveal_strlit("Запись прошивки на скорости 921600");
                }
                self.phase = FlowPhase::Writing;
                self.stage = stage;
                (notices, FlowAction::Write { segments })
            },
        }
    }
}

/// What one step of an update run does with an event it accepts.
pub open spec fn update_step(old_flow: UpdateFlow, new_flow: UpdateFlow, event: FlowEvent, notices: Seq<Notice>, action: FlowAction) -> bool {
    match (old_flow.phase, event) {
        (_, FlowEvent::Failed { error }) => {
            &&& new_flow.phase == FlowPhase::Done
            &&& action == (FlowAction::Abort { error })
            &&& notices.len() == 1
            &&& is_error_state(notices[0], OperationStage::Failed, error.message@, error)
        },
        (FlowPhase::Connecting, FlowEvent::Connected { chip, flash_size_bytes }) => if old_flow.target_chips@.contains(chip) {
            &&& new_flow.phase == FlowPhase::ReadingTable
            &&& new_flow.flash_size_bytes == flash_size_bytes
            &&& notices.len() == 0
            &&& action == (FlowAction::ReadPartitionTable { declared_offset: old_flow.declared_offset })
        } else {
            &&& new_flow.phase == FlowPhase::Done
            &&& aborts_as(
                notices,
                action,
                (ErrorCode::ChipMismatch, "Подключённая ESP32 не подходит для выбранного пакета"@),
            )
            &&& action->Abort_error.detail matches Some(d) && d@ == "обнаружен "@ + chip_name(chip)
        },
        (FlowPhase::ReadingTable, FlowEvent::TableFound { offset, entries }) => {
            &&& notices.len() >= 1
            &&& is_log(
                notices[0],
                OperationStage::Connecting,
                "INFO"@,
                "Partition table обнаружена по адресу 0x"@ + hex_upper(offset as nat),
            )
            &&& entries_view(new_flow.entries@) == entries_view(entries@)
            &&& match first_of_kind(entries_view(entries@), EntryKind::OtaData) {
                Some(od) => {
                    &&& new_flow.phase == FlowPhase::ReadingOtaData
                    &&& notices.len() == 1
                    &&& action == (FlowAction::ReadRegion { address: od.offset, size: 0x2000 })
                },
                None => decided(old_flow, new_flow, notices.skip(1), action, entries_view(entries@), None),
            }
        },
        (FlowPhase::ReadingOtaData, FlowEvent::OtaDataRead { bytes }) => decided(
            old_flow,
            new_flow,
            notices,
            action,
            entries_view(old_flow.entries@),
            Some(bytes@),
        ),
        (FlowPhase::Writing, FlowEvent::Written) => {
            &&& new_flow.phase == FlowPhase::StartingMonitor
            &&& notices.len() == 2
            &&& is_state(notices[0], OperationStage::Verifying, "Flash verify завершён"@)
            &&& is_state(notices[1], OperationStage::Resetting, "Запуск приложения и UART-монитора"@)
            &&& action matches FlowAction::StartMonitor { baud, marker }
            &&& action->StartMonitor_baud == old_flow.monitor_baud
            &&& action->StartMonitor_marker@ == old_flow.success_marker@
        },
        (FlowPhase::StartingMonitor, FlowEvent::MonitorStarted) => if old_flow.success_marker@.len() == 0 {
            &&& new_flow.phase == FlowPhase::Done
            &&& notices.len() == 2
            &&& is_state(
                notices[0],
                OperationStage::Monitoring,
                "UART-монитор открыт; маркер готовности не настроен"@,
            )
            &&& is_state(
                notices[1],
                OperationStage::Passed,
                "Обновление записано и проверено, UART-монитор открыт"@,
            )
            &&& action == (FlowAction::Finish { boot_confirmed: false, error: None })
        } else {
            &&& new_flow.phase == FlowPhase::AwaitingMarker
            &&& notices.len() == 1
            &&& is_state(notices[0], OperationStage::Monitoring, "Ожидание UART-маркера успешного запуска"@)
            &&& action == (FlowAction::AwaitMarker { timeout_ms: old_flow.success_timeout_ms })
        },
        (FlowPhase::AwaitingMarker, FlowEvent::MarkerMatched) => {
            &&& new_flow.phase == FlowPhase::Done
            &&& notices.len() == 1
            &&& is_state(notices[0], OperationStage::Passed, "Обновление завершено, приложение запущено"@)
            &&& action == (FlowAction::Finish { boot_confirmed: true, error: None })
        },
        (FlowPhase::AwaitingMarker, FlowEvent::MonitorDisconnected { detail }) => {
            &&& new_flow.phase == FlowPhase::Done
            &&& action matches FlowAction::Finish { boot_confirmed: false, error: Some(e) }
            &&& fails_as(
                action->Finish_error->0,
                (ErrorCode::DeviceDisconnected, "Плата отключилась до подтверждения запуска"@),
            )
            &&& action->Finish_error->0.detail matches Some(d) && d@ == detail@
            &&& notices.len() == 1
            &&& is_error_state(
                notices[0],
                OperationStage::Failed,
                "Прошивка записана, но запуск не подтверждён"@,
                action->Finish_error->0,
            )
        },
        (FlowPhase::AwaitingMarker, FlowEvent::MarkerTimedOut) => {
            &&& new_flow.phase == FlowPhase::Done
            &&& action matches FlowAction::Finish { boot_confirmed: false, error: Some(e) }
            &&& fails_as(
                action->Finish_error->0,
                (ErrorCode::BootMarkerTimeout, "UART-маркер не получен до истечения таймаута"@),
            )
            &&& action->Finish_error->0.detail is None
            &&& notices.len() == 1
            &&& is_error_state(
                notices[0],
                OperationStage::Failed,
                "Прошивка записана, но запуск не подтверждён"@,
                action->Finish_error->0,
            )
        },
        _ => true,
    }
}

impl UpdateFlow {
    /// Takes the outcome of the outside work the run asked for, and says
    /// what to report and what to do next.
    pub fn step(&mut self, event: FlowEvent) -> (r: (Vec<Notice>, FlowAction))
        requires
            old(self).wf(),
            old(self).accepts(event),
        ensures
            final(self).wf(),
            same_update_config(*final(self), *old(self)),
            stages_follow(old(self).stage, r.0@),
            final(self).stage == stage_after(old(self).stage, r.0@),
            update_step(*old(self), *final(self), event, r.0@, r.1),
    {
        let ghost from = self.stage;
        let mut notices: Vec<Notice> = Vec::new();
        let mut stage = self.stage;
        match event {
            FlowEvent::Failed { error } => {
                let r = self.abort(notices, Ghost(from), error);
                assert(r.0@ =~= seq![r.0@.last()]);
                r
            },
            FlowEvent::Connected { chip, flash_size_bytes } => {
                match check_device_chip(
                    self.target_chips.as_slice(),
                    chip,
                    "Подключённая ESP32 не подходит для выбранного пакета",
                ) {
                    Err(error) => {
                        let r = self.abort(notices, Ghost(from), error);
                        assert(r.0@ =~= seq![r.0@.last()]);
                        r
                    },
                    Ok(()) => {
                        self.flash_size_bytes = flash_size_bytes;
                        self.phase = FlowPhase::ReadingTable;
                        (notices, FlowAction::ReadPartitionTable { declared_offset: self.declared_offset })
                    },
                }
            },
            FlowEvent::TableFound { offset, entries } => {
                let mut message = String::from_str("Partition table обнаружена по адресу 0x");
                let hex = u32_to_hex_upper(offset);
                message.append(hex.as_str());
                proof {
                    reveal_strlit("Partition table обнаружена по адресу 0x");
                    reveal_strlit("INFO");
                }
                push_log(&mut notices, stage, Ghost(from), OperationStage::Connecting, "INFO", message);
                let ota = find_first(entries.as_slice(), EntryKind::OtaData);
                self.entries = entries;
                match ota {
                    Some(i) => {
                        let address = self.entries[i].offset;
                        self.phase = FlowPhase::ReadingOtaData;
                        (notices, FlowAction::ReadRegion { address, size: 0x2000 })
                    },
                    None => {
                        let (rest, action) = self.decide(None);
                        let mut rest = rest;
                        let ghost first = notices@;
                        let ghost second = rest@;
                        proof {
                            lemma_follow_concat(from, first, second);
                        }
                        notices.append(&mut rest);
                        assert(notices@.skip(1) =~= second);
                        (notices, action)
                    },
                }
            },
            FlowEvent::OtaDataRead { bytes } => self.decide(Some(bytes)),
            FlowEvent::Written => {
                push_state(&mut notices, &mut stage, Ghost(from), OperationStage::Verifying, "Flash verify завершён", None);
                push_state(
                    &mut notices,
                    &mut stage,
                    Ghost(from),
                    OperationStage::Resetting,
                    "Запуск приложения и UART-монитора",
                    None,
                );
                proof {
                    reveal_strlit("Flash verify завершён");
                    reveal_strlit("Запуск приложения и UART-монитора");
                }
                self.stage = stage;
                self.phase = FlowPhase::StartingMonitor;
                (notices, FlowAction::StartMonitor { baud: self.monitor_baud, marker: self.success_marker.clone() })
            },
            FlowEvent::MonitorStarted => {
                proof {
                    reveal_strlit("UART-монитор открыт; маркер готовности не настроен");
                    reveal_strlit("Обновление записано и проверено, UART-монитор открыт");
                    reveal_strlit("Ожидание UART-маркера успешного запуска");
                }
                if self.success_marker.as_str().is_empty() {
                    push_state(
                        &mut notices,
                        &mut stage,
                        Ghost(from),
                        OperationStage::Monitoring,
                        "UART-монитор открыт; маркер готовности не настроен",
                        None,
                    );
                    push_state(
                        &mut notices,
                        &mut stage,
                        Ghost(from),
                        OperationStage::Passed,
                        "Обновление записано и проверено, UART-монитор открыт",
                        None,
                    );
                    self.stage = stage;
                    self.phase = FlowPhase::Done;
                    (notices, FlowAction::Finish { boot_confirmed: false, error: None })
                } else {
                    push_state(
                        &mut notices,
                        &mut stage,
                        Ghost(from),
                        OperationStage::Monitoring,
                        "Ожидание UART-маркера успешного запуска",
                        None,
                    );
                    self.stage = stage;
                    self.phase = FlowPhase::AwaitingMarker;
                    (notices, FlowAction::AwaitMarker { timeout_ms: self.success_timeout_ms })
                }
            },
            FlowEvent::MarkerMatched => {
                push_state(
                    &mut notices,
                    &mut stage,
                    Ghost(from),
                    OperationStage::Passed,
                    "Обновление завершено, приложение запущено",
                    None,
                );
                proof {
                    reveal_strlit("Обновление завершено, приложение запущено");
                }
                self.stage = stage;
                self.phase = FlowPhase::Done;
                (notices, FlowAction::Finish { boot_confirmed: true, error: None })
            },
            FlowEvent::MonitorDisconnected { detail } => {
                let error = OperationError::new(
                    ErrorCode::DeviceDisconnected,
                    "Плата отключилась до подтверждения запуска",
                ).with_detail(detail);
                push_state(
                    &mut notices,
                    &mut stage,
                    Ghost(from),
                    OperationStage::Failed,
                    "Прошивка записана, но запуск не подтверждён",
                    Some(error.duplicate()),
                );
                proof {
                    reveal_strlit("Прошивка записана, но запуск не подтверждён");
                }
                self.stage = stage;
                self.phase = FlowPhase::Done;
                (notices, FlowAction::Finish { boot_confirmed: false, error: Some(error) })
            },
            FlowEvent::MarkerTimedOut => {
                let error = OperationError::new(
                    ErrorCode::BootMarkerTimeout,
                    "UART-маркер не получен до истечения таймаута",
                );
                push_state(
                    &mut notices,
                    &mut stage,
                    Ghost(from),
                    OperationStage::Failed,
                    "Прошивка записана, но запуск не подтверждён",
                    Some(error.duplicate()),
                );
                proof {
                    reveal_strlit("Прошивка записана, но запуск не подтверждён");
                }
                self.stage = stage;
                self.phase = FlowPhase::Done;
                (notices, FlowAction::Finish { boot_confirmed: false, error: Some(error) })
            },
            FlowEvent::Erased => {
                proof {
                    assert(false);
                }
                (notices, FlowAction::Connect)
            },
        }
    }
}

// ---------------------------------------------------------------------------
// Programming boards in production
// ---------------------------------------------------------------------------

/// A production run: what it knows of the package and the request, and the
/// writes it planned once the board was known.
#[derive(Debug)]
pub struct FactoryFlow {
    pub phase: FlowPhase,
    /// The last stage reported.
    pub stage: OperationStage,
    pub target_chips: Vec<ChipFamily>,
    pub full_erase: bool,
    pub monitor_baud: u32,
    /// The marker the run waits for: the operator's for a PlatformIO
    /// folder, the manifest's otherwise.
    pub success_marker: String,
    pub success_timeout_ms: u64,
    pub segments: Vec<OwnedFlashSegment>,
}

/// The settings of two production runs are the same.
pub open spec fn same_factory_config(a: FactoryFlow, b: FactoryFlow) -> bool {
    &&& a.target_chips@ == b.target_chips@
    &&& a.full_erase == b.full_erase
    &&& a.monitor_baud == b.monitor_baud
    &&& a.success_marker@ == b.success_marker@
    &&& a.success_timeout_ms == b.success_timeout_ms
}

/// Every segment of the manifest names its flash offset.
pub open spec fn offsets_named(package: LoadedPackage) -> bool {
    forall|i: int| 0 <= i < package.validated.manifest.segments@.len()
        ==> (#[trigger] package.validated.manifest.segments@[i]).offset is Some
}

/// The writes of a factory package on a board with this flash size: each
/// segment at its offset, when it ends within the flash and its bytes are
/// in the package; otherwise the first failure, naming the segment's file.
pub open spec fn factory_writes(
    segs: Seq<crate::manifest::SegmentView>,
    files: Seq<(Seq<char>, Seq<u8>)>,
    flash_size: u64,
) -> core::result::Result<Seq<(u32, Seq<u8>)>, (crate::error::Failure, Seq<char>)>
    decreases segs.len(),
{
    if segs.len() == 0 {
        Ok(Seq::empty())
    } else {
        let s = segs[0];
        let address = s.offset->0;
        if address + s.size > flash_size {
            Err(
                (
                    (ErrorCode::PackageInvalid, "Factory-сегмент выходит за размер flash устройства"@),
                    s.file,
                ),
            )
        } else {
            match file_lookup(files, s.file) {
                None => Err(
                    (
                        (ErrorCode::PackageFileMissing, "Проверенный BIN отсутствует в снимке папки"@),
                        s.file,
                    ),
                ),
                Some(b) => match factory_writes(segs.drop_first(), files, flash_size) {
                    Err(f) => Err(f),
                    Ok(rest) => Ok(seq![(address, b)] + rest),
                },
            }
        }
    }
}

pub open spec fn writes_view(v: Seq<OwnedFlashSegment>) -> Seq<(u32, Seq<u8>)> {
    v.map_values(|w: OwnedFlashSegment| (w.address, w.data@))
}

/// Plans the writes of a factory package for a board with this flash size.
#[verifier::loop_isolation(false)]
fn plan_factory_writes(package: &LoadedPackage, flash_size: u64) -> (r: Result<Vec<OwnedFlashSegment>>)
    requires
        offsets_named(*package),
    ensures
        match factory_writes(
            crate::manifest::segments_view(package.validated.manifest.segments@),
            package.snapshot(),
            flash_size,
        ) {
            Ok(w) => r matches Ok(v) && writes_view(v@) == w,
            Err((f, file)) => r matches Err(e) && fails_as(e, f) && (e.detail matches Some(d) && d@ == file),
        },
{
    let segments = &package.validated.manifest.segments;
    let ghost segs = crate::manifest::segments_view(segments@);
    let ghost files = package.snapshot();
    let mut out: Vec<OwnedFlashSegment> = Vec::new();
    let mut i: usize = 0;
    assert(segs.skip(0) =~= segs);
    while i < segments.len()
        invariant
            segs == crate::manifest::segments_view(segments@),
            i <= segs.len(),
            match factory_writes(segs, files, flash_size) {
                Ok(w) => factory_writes(segs.skip(i as int), files, flash_size) matches Ok(rest) && w
                    == writes_view(out@) + rest,
                Err(f) => factory_writes(segs.skip(i as int), files, flash_size) == Err::<
                    Seq<(u32, Seq<u8>)>,
                    (crate::error::Failure, Seq<char>),
                >(f),
            },
        decreases segs.len() - i,
    {
        let segment = &segments[i];
        assert(segs.skip(i as int)[0] == segs[i as int]);
        assert(segs.skip(i as int).drop_first() =~= segs.skip(i + 1));
        assert(segment.offset is Some);
        let address = match segment.offset {
            Some(a) => a.0,
            None => 0,
        };
        if address as u128 + segment.size as u128 > flash_size as u128 {
            return Err(
                OperationError::new(
                    ErrorCode::PackageInvalid,
                    "Factory-сегмент выходит за размер flash устройства",
                ).with_detail(segment.file.clone()),
            );
        }
        let bytes = match package.segment_bytes(segment.file.as_str()) {
            Ok(b) => b,
            Err(e) => {
                return Err(e);
            },
        };
        let ghost before = writes_view(out@);
        out.push(OwnedFlashSegment { address, data: vstd::slice::slice_to_vec(bytes) });
        assert(writes_view(out@) =~= before + seq![(address, bytes@)]);
        proof {
            if factory_writes(segs, files, flash_size) is Ok {
                let rest = factory_writes(segs.skip(i + 1), files, flash_size)->Ok_0;
                assert(before + seq![(address, bytes@)] + rest =~= before + (seq![(address, bytes@)] + rest));
            }
        }
        i = i + 1;
    }
    assert(segs.skip(i as int).len() == 0);
    assert(writes_view(out@) + Seq::<(u32, Seq<u8>)>::empty() =~= writes_view(out@));
    Ok(out)
}

impl FactoryFlow {
    /// The events the run can take in its phase.
    pub open spec fn accepts(&self, event: FlowEvent) -> bool {
        match (self.phase, event) {
            (FlowPhase::Done, _) => false,
            (_, FlowEvent::Failed { .. }) => true,
            (FlowPhase::Connecting, FlowEvent::Connected { .. }) => true,
            (FlowPhase::Erasing, FlowEvent::Erased) => true,
            (FlowPhase::Writing, FlowEvent::Written) => true,
            (FlowPhase::StartingMonitor, FlowEvent::MonitorStarted) => true,
            (FlowPhase::AwaitingMarker, FlowEvent::MarkerMatched) => true,
            (FlowPhase::AwaitingMarker, FlowEvent::MonitorDisconnected { .. }) => true,
            (FlowPhase::AwaitingMarker, FlowEvent::MarkerTimedOut) => true,
            _ => false,
        }
    }

    /// Whether the run can take the event now.
    pub fn can_take(&self, event: &FlowEvent) -> (b: bool)
        ensures
            b == self.accepts(*event),
    {
        match (self.phase, event) {
            (FlowPhase::Done, _) => false,
            (_, FlowEvent::Failed { .. }) => true,
            (FlowPhase::Connecting, FlowEvent::Connected { .. }) => true,
            (FlowPhase::Erasing, FlowEvent::Erased) => true,
            (FlowPhase::Writing, FlowEvent::Written) => true,
            (FlowPhase::StartingMonitor, FlowEvent::MonitorStarted) => true,
            (FlowPhase::AwaitingMarker, FlowEvent::MarkerMatched) => true,
            (FlowPhase::AwaitingMarker, FlowEvent::MonitorDisconnected { .. }) => true,
            (FlowPhase::AwaitingMarker, FlowEvent::MarkerTimedOut) => true,
            _ => false,
        }
    }

    /// The phase and the stage reported fit together; the run only ever
    /// reports stages of an operation under way.
    pub open spec fn wf(&self) -> bool {
        &&& stage_is_active(self.stage)
        &&& match self.phase {
            FlowPhase::Connecting => self.stage == OperationStage::Validating || self.stage
                == OperationStage::Connecting,
            FlowPhase::ReadingTable | FlowPhase::ReadingOtaData => false,
            FlowPhase::Erasing => self.stage == OperationStage::Erasing,
            FlowPhase::Writing => self.stage == OperationStage::Writing,
            FlowPhase::StartingMonitor => self.stage == OperationStage::Resetting,
            FlowPhase::AwaitingMarker => self.stage == OperationStage::Monitoring,
            FlowPhase::Done => true,
        }
    }

    /// Prepares a production run with a loaded package: it must be a
    /// factory package, and the marker to wait for, when set, must be a
    /// valid marker.
    pub fn new(package: &LoadedPackage, full_erase: bool, requested_marker: &str) -> (r: Result<FactoryFlow>)
        ensures
            package.validated.manifest.kind != PackageKind::Factory ==> (r matches Err(e) && fails_as(
                e,
                (ErrorCode::PackageInvalid, "В производственном режиме нужен пакет kind=factory"@),
            )),
            package.validated.manifest.kind == PackageKind::Factory ==> {
                let m = package.validated.manifest;
                let marker = crate::flashing::spec_select_success_marker(
                    package.source,
                    m.monitor.success_marker@,
                    requested_marker@,
                );
                if marker.len() > 0 && vstd::utf8::encode_utf8(marker).len() > 256 {
                    r matches Err(e) && fails_as(
                        e,
                        (ErrorCode::PackageInvalid, "UART-маркер должен занимать от 1 до 256 байт"@),
                    )
                } else {
                    r matches Ok(flow) && {
                        &&& flow.phase == FlowPhase::Connecting
                        &&& flow.stage == OperationStage::Validating
                        &&& flow.wf()
                        &&& flow.target_chips@ == m.target_chips@
                        &&& flow.full_erase == full_erase
                        &&& flow.monitor_baud == m.monitor.baud
                        &&& flow.success_marker@ == marker
                        &&& flow.success_timeout_ms == m.monitor.success_timeout_ms
                    }
                }
            },
    {
        let m = &package.validated.manifest;
        if m.kind != PackageKind::Factory {
            return Err(
                OperationError::new(
                    ErrorCode::PackageInvalid,
                    "В производственном режиме нужен пакет kind=factory",
                ),
            );
        }
        let marker = crate::flashing::select_success_marker(
            package.source,
            m.monitor.success_marker.as_str(),
            requested_marker,
        );
        if !marker.is_empty() {
            crate::marker::MarkerDetector::new(marker.as_bytes())?;
        }
        Ok(
            FactoryFlow {
                phase: FlowPhase::Connecting,
                stage: OperationStage::Validating,
                target_chips: m.target_chips.clone(),
                full_erase,
                monitor_baud: m.monitor.baud,
                success_marker: String::from_str(marker),
                success_timeout_ms: m.monitor.success_timeout_ms,
                segments: Vec::new(),
            },
        )
    }

    /// Starts talking to the board: reports detection and connection and
    /// asks to connect.
    pub fn begin(&mut self) -> (r: (Vec<Notice>, FlowAction))
        requires
            old(self).phase == FlowPhase::Connecting,
            old(self).stage == OperationStage::Validating,
        ensures
            final(self).phase == FlowPhase::Connecting,
            final(self).wf(),
            same_factory_config(*final(self), *old(self)),
            r.0@.len() == 2,
            is_state(r.0@[0], OperationStage::Detecting, "Определение подключённой ESP32"@),
            is_state(r.0@[1], OperationStage::Connecting, "Подключение к ROM bootloader"@),
            stages_follow(old(self).stage, r.0@),
            final(self).stage == stage_after(old(self).stage, r.0@),
            r.1 is Connect,
    {
        let ghost from = self.stage;
        let mut notices: Vec<Notice> = Vec::new();
        let mut stage = self.stage;
        push_state(&mut notices, &mut stage, Ghost(from), OperationStage::Detecting, "Определение подключённой ESP32", None);
        push_state(&mut notices, &mut stage, Ghost(from), OperationStage::Connecting, "Подключение к ROM bootloader", None);
        proof {
            reveal_strlit("Определение подключённой ESP32");
            reveal_strlit("Подключение к ROM bootloader");
        }
        self.stage = stage;
        (notices, FlowAction::Connect)
    }
}

/// The run stops with an error, without a report of its own: the verdict
/// comes once the run's record is written.
pub open spec fn stops_with(notices: Seq<Notice>, action: FlowAction, f: crate::error::Failure) -> bool {
    &&& notices.len() == 0
    &&& action matches FlowAction::Abort { error }
    &&& fails_as(action->Abort_error, f)
}

/// What one step of a production run does with an event it accepts.
pub open spec fn factory_step(
    old_flow: FactoryFlow,
    new_flow: FactoryFlow,
    package: LoadedPackage,
    event: FlowEvent,
    notices: Seq<Notice>,
    action: FlowAction,
) -> bool {
    match (old_flow.phase, event) {
        (_, FlowEvent::Failed { error }) => {
            &&& new_flow.phase == FlowPhase::Done
            &&& notices.len() == 0
            &&& action == (FlowAction::Abort { error })
        },
        (FlowPhase::Connecting, FlowEvent::Connected { chip, flash_size_bytes }) => if !old_flow.target_chips@.contains(chip) {
            &&& new_flow.phase == FlowPhase::Done
            &&& stops_with(
                notices,
                action,
                (ErrorCode::ChipMismatch, "Подключённая ESP32 не подходит для factory-пакета"@),
            )
            &&& action->Abort_error.detail matches Some(d) && d@ == "обнаружен "@ + chip_name(chip)
        } else {
            match factory_writes(
                crate::manifest::segments_view(package.validated.manifest.segments@),
                package.snapshot(),
                flash_size_bytes,
            ) {
                Err((f, file)) => {
                    &&& new_flow.phase == FlowPhase::Done
                    &&& stops_with(notices, action, f)
                    &&& action->Abort_error.detail matches Some(d) && d@ == file
                },
                Ok(w) => if old_flow.full_erase {
                    &&& new_flow.phase == FlowPhase::Erasing
                    &&& writes_view(new_flow.segments@) == w
                    &&& notices.len() == 1
                    &&& is_state(
                        notices[0],
                        OperationStage::Erasing,
                        "Полное стирание flash — не отключайте питание"@,
                    )
                    &&& action is EraseAll
                } else {
                    &&& new_flow.phase == FlowPhase::Writing
                    &&& notices.len() == 1
                    &&& is_state(notices[0], OperationStage::Writing, "Запись factory-пакета на скорости 921600"@)
                    &&& action matches FlowAction::Write { segments }
                    &&& writes_view(action->Write_segments@) == w
                },
            }
        },
        (FlowPhase::Erasing, FlowEvent::Erased) => {
            &&& new_flow.phase == FlowPhase::Writing
            &&& notices.len() == 1
            &&& is_state(notices[0], OperationStage::Writing, "Запись factory-пакета на скорости 921600"@)
            &&& action matches FlowAction::Write { segments }
            &&& writes_view(action->Write_segments@) == writes_view(old_flow.segments@)
        },
        (FlowPhase::Writing, FlowEvent::Written) => {
            &&& new_flow.phase == FlowPhase::StartingMonitor
            &&& notices.len() == 2
            &&& is_state(notices[0], OperationStage::Verifying, "Flash verify завершён"@)
            &&& is_state(notices[1], OperationStage::Resetting, "Запуск приложения и UART-монитора"@)
            &&& action matches FlowAction::StartMonitor { baud, marker }
            &&& action->StartMonitor_baud == old_flow.monitor_baud
            &&& action->StartMonitor_marker@ == old_flow.success_marker@
        },
        (FlowPhase::StartingMonitor, FlowEvent::MonitorStarted) => if old_flow.success_marker@.len() == 0 {
            &&& new_flow.phase == FlowPhase::Done
            &&& notices.len() == 1
            &&& is_state(
                notices[0],
                OperationStage::Monitoring,
                "UART-монитор открыт; маркер готовности не настроен"@,
            )
            &&& action == (FlowAction::Finish { boot_confirmed: false, error: None })
        } else {
            &&& new_flow.phase == FlowPhase::AwaitingMarker
            &&& notices.len() == 1
            &&& is_state(notices[0], OperationStage::Monitoring, "Ожидание производственного UART-маркера"@)
            &&& action == (FlowAction::AwaitMarker { timeout_ms: old_flow.success_timeout_ms })
        },
        (FlowPhase::AwaitingMarker, FlowEvent::MarkerMatched) => {
            &&& new_flow.phase == FlowPhase::Done
            &&& notices.len() == 0
            &&& action == (FlowAction::Finish { boot_confirmed: true, error: None })
        },
        (FlowPhase::AwaitingMarker, FlowEvent::MonitorDisconnected { detail }) => {
            &&& new_flow.phase == FlowPhase::Done
            &&& stops_with(notices, action, (ErrorCode::DeviceDisconnected, "Плата отключилась до UART-маркера"@))
            &&& action->Abort_error.detail matches Some(d) && d@ == detail@
        },
        (FlowPhase::AwaitingMarker, FlowEvent::MarkerTimedOut) => {
            &&& new_flow.phase == FlowPhase::Done
            &&& stops_with(
                notices,
                action,
                (ErrorCode::BootMarkerTimeout, "UART-маркер не получен до истечения таймаута"@),
            )
            &&& action->Abort_error.detail is None
        },
        _ => true,
    }
}

impl FactoryFlow {
    /// Takes the outcome of the outside work the run asked for, and says
    /// what to report and what to do next.
    pub fn step(&mut self, package: &LoadedPackage, event: FlowEvent) -> (r: (Vec<Notice>, FlowAction))
        requires
            old(self).wf(),
            old(self).accepts(event),
            old(self).phase == FlowPhase::Connecting ==> old(self).stage == OperationStage::Connecting,
            offsets_named(*package),
        ensures
            final(self).wf(),
            same_factory_config(*final(self), *old(self)),
            stages_follow(old(self).stage, r.0@),
            final(self).stage == stage_after(old(self).stage, r.0@),
            factory_step(*old(self), *final(self), *package, event, r.0@, r.1),
            final(self).phase == FlowPhase::Done && r.1 is Finish ==> final(self).stage
                == OperationStage::Monitoring,
    {
        let ghost from = self.stage;
        let mut notices: Vec<Notice> = Vec::new();
        let mut stage = self.stage;
        proof {
            reveal_strlit("Запись factory-пакета на скорости 921600");
        }
        match event {
            FlowEvent::Failed { error } => {
                self.phase = FlowPhase::Done;
                (notices, FlowAction::Abort { error })
            },
            FlowEvent::Connected { chip, flash_size_bytes } => {
                match check_device_chip(
                    self.target_chips.as_slice(),
                    chip,
                    "Подключённая ESP32 не подходит для factory-пакета",
                ) {
                    Err(error) => {
                        self.phase = FlowPhase::Done;
                        return (notices, FlowAction::Abort { error });
                    },
                    Ok(()) => {},
                }
                let segments = match plan_factory_writes(package, flash_size_bytes) {
                    Ok(v) => v,
                    Err(error) => {
                        self.phase = FlowPhase::Done;
                        return (notices, FlowAction::Abort { error });
                    },
                };
                if self.full_erase {
                    push_state(
                        &mut notices,
                        &mut stage,
                        Ghost(from),
                        OperationStage::Erasing,
                        "Полное стирание flash — не отключайте питание",
                        None,
                    );
                    proof {
                        reveal_strlit("Полное стирание flash — не отключайте питание");
                    }
                    self.segments = segments;
                    self.stage = stage;
                    self.phase = FlowPhase::Erasing;
                    (notices, FlowAction::EraseAll)
                } else {
                    push_state(
                        &mut notices,
                        &mut stage,
                        Ghost(from),
                        OperationStage::Writing,
                        "Запись factory-пакета на скорости 921600",
                        None,
                    );
                    self.stage = stage;
                    self.phase = FlowPhase::Writing;
                    (notices, FlowAction::Write { segments })
                }
            },
            FlowEvent::Erased => {
                push_state(
                    &mut notices,
                    &mut stage,
                    Ghost(from),
                    OperationStage::Writing,
                    "Запись factory-пакета на скорости 921600",
                    None,
                );
                let mut segments: Vec<OwnedFlashSegment> = Vec::new();
                core::mem::swap(&mut segments, &mut self.segments);
                self.stage = stage;
                self.phase = FlowPhase::Writing;
                (notices, FlowAction::Write { segments })
            },
            FlowEvent::Written => {
                push_state(&mut notices, &mut stage, Ghost(from), OperationStage::Verifying, "Flash verify завершён", None);
                push_state(
                    &mut notices,
                    &mut stage,
                    Ghost(from),
                    OperationStage::Resetting,
                    "Запуск приложения и UART-монитора",
                    None,
                );
                proof {
                    reveal_strlit("Flash verify завершён");
                    reveal_strlit("Запуск приложения и UART-монитора");
                }
                self.stage = stage;
                self.phase = FlowPhase::StartingMonitor;
                (notices, FlowAction::StartMonitor { baud: self.monitor_baud, marker: self.success_marker.clone() })
            },
            FlowEvent::MonitorStarted => {
                proof {
                    reveal_strlit("UART-монитор открыт; маркер готовности не настроен");
                    reveal_strlit("Ожидание производственного UART-маркера");
                }
                if self.success_marker.as_str().is_empty() {
                    push_state(
                        &mut notices,
                        &mut stage,
                        Ghost(from),
                        OperationStage::Monitoring,
                        "UART-монитор открыт; маркер готовности не настроен",
                        None,
                    );
                    self.stage = stage;
                    self.phase = FlowPhase::Done;
                    (notices, FlowAction::Finish { boot_confirmed: false, error: None })
                } else {
                    push_state(
                        &mut notices,
                        &mut stage,
                        Ghost(from),
                        OperationStage::Monitoring,
                        "Ожидание производственного UART-маркера",
                        None,
                    );
                    self.stage = stage;
                    self.phase = FlowPhase::AwaitingMarker;
                    (notices, FlowAction::AwaitMarker { timeout_ms: self.success_timeout_ms })
                }
            },
            FlowEvent::MarkerMatched => {
                self.phase = FlowPhase::Done;
                (notices, FlowAction::Finish { boot_confirmed: true, error: None })
            },
            FlowEvent::MonitorDisconnected { detail } => {
                self.phase = FlowPhase::Done;
                let error = OperationError::new(
                    ErrorCode::DeviceDisconnected,
                    "Плата отключилась до UART-маркера",
                ).with_detail(detail);
                (notices, FlowAction::Abort { error })
            },
            FlowEvent::MarkerTimedOut => {
                self.phase = FlowPhase::Done;
                let error = OperationError::new(
                    ErrorCode::BootMarkerTimeout,
                    "UART-маркер не получен до истечения таймаута",
                );
                (notices, FlowAction::Abort { error })
            },
            FlowEvent::TableFound { .. } | FlowEvent::OtaDataRead { .. } => {
                proof {
                    assert(false);
                }
                (notices, FlowAction::Connect)
            },
        }
    }

    /// The verdict of a finished production run, reported once its record
    /// is written: passed, with or without a confirmed start, or failed with
    /// the run's error.
    pub fn verdict(&mut self, outcome: &core::result::Result<bool, OperationError>) -> (n: Notice)
        requires
            old(self).phase == FlowPhase::Done,
            old(self).wf(),
            outcome is Ok ==> old(self).stage == OperationStage::Monitoring,
        ensures
            match outcome {
                Ok(true) => is_state(n, OperationStage::Passed, "Плата прошита и подтвердила запуск"@),
                Ok(false) => is_state(n, OperationStage::Passed, "Плата прошита и проверена, UART-монитор открыт"@),
                Err(e) => is_error_state(n, OperationStage::Failed, e.message@, *e),
            },
            notice_stage(n) matches Some(s) && may_report(old(self).stage, s) && final(self).stage == s,
            final(self).phase == FlowPhase::Done,
    {
        proof {
            reveal_strlit("Плата прошита и подтвердила запуск");
            reveal_strlit("Плата прошита и проверена, UART-монитор открыт");
        }
        match outcome {
            Ok(confirmed) => {
                self.stage = OperationStage::Passed;
                Notice::State {
                    stage: OperationStage::Passed,
                    message: String::from_str(
                        if *confirmed {
                            "Плата прошита и подтвердила запуск"
                        } else {
                            "Плата прошита и проверена, UART-монитор открыт"
                        },
                    ),
                    error: None,
                }
            },
            Err(e) => {
                self.stage = OperationStage::Failed;
                failure_notice(e)
            },
        }
    }
}

} // verus!
