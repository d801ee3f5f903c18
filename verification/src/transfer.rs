//! Moving an image: from the mirror to a file, and from a file to a device.

use crate::error::BuildError;
use vstd::prelude::*;

verus! {

/// How many bytes of an image are read at once: four mebibytes.
pub const BLOCK_SIZE: usize = 4194304;

/// The size of the image that the mirror announces. Without one there is no download.
pub fn announced_size(content_length: Option<u64>) -> (r: Result<u64, BuildError>)
    ensures
        r == match content_length {
            Some(size) => Ok(size),
            None => Err(BuildError::NoContentLength),
        },
{
    match content_length {
        Some(size) => Ok(size),
        None => Err(BuildError::NoContentLength),
    }
}

/// What goes to the device after a read of the image put `bytes_read` bytes into
/// `buffer`: these bytes. A read of none is the end of the image.
pub fn block_to_write(buffer: &[u8], bytes_read: usize) -> (r: Option<&[u8]>)
    requires
        bytes_read <= buffer@.len(),
    ensures
        match r {
            Some(block) => bytes_read > 0 && block@ == buffer@.take(bytes_read as int),
            None => bytes_read == 0,
        },
{
    if bytes_read == 0 {
        None
    } else {
        Some(vstd::slice::slice_subrange(buffer, 0, bytes_read))
    }
}

/// How far the writing of an image to a device is: what was asked for last.
#[derive(Debug, Clone, Copy, PartialEq, Eq, Structural)]
pub enum FlashStage {
    Reading,
    Writing,
    Syncing,
    Finished,
}

/// What came of an action.
pub enum FlashEvent<'a> {
    /// A read of the image put `bytes_read` bytes into `buffer`, at its start.
    Read { buffer: &'a [u8], bytes_read: usize },
    /// The block was written to the device.
    Written,
    /// The device holds what was written to it.
    Synced,
}

/// What is to be done next.
pub enum FlashAction<'a> {
    /// Read the image on, into the buffer.
    Read,
    /// Write these bytes to the device.
    Write { block: &'a [u8] },
    /// Wait until the device holds what was written to it.
    Sync,
    /// Nothing: the device holds the image.
    Finish,
}

/// Model of a [`FlashEvent`].
#[verifier::ext_equal]
pub ghost enum FlashEventModel {
    Read { buffer: Seq<u8>, bytes_read: nat },
    Written,
    Synced,
}

/// Model of a [`FlashAction`].
#[verifier::ext_equal]
pub ghost enum FlashActionModel {
    Read,
    Write { block: Seq<u8> },
    Sync,
    Finish,
}

impl<'a> View for FlashEvent<'a> {
    type V = FlashEventModel;

    open spec fn view(&self) -> FlashEventModel {
        match *self {
            FlashEvent::Read { buffer, bytes_read } => FlashEventModel::Read {
                buffer: buffer@,
                bytes_read: bytes_read as nat,
            },
            FlashEvent::Written => FlashEventModel::Written,
            FlashEvent::Synced => FlashEventModel::Synced,
        }
    }
}

impl<'a> View for FlashAction<'a> {
    type V = FlashActionModel;

    open spec fn view(&self) -> FlashActionModel {
        match *self {
            FlashAction::Read => FlashActionModel::Read,
            FlashAction::Write { block } => FlashActionModel::Write { block: block@ },
            FlashAction::Sync => FlashActionModel::Sync,
            FlashAction::Finish => FlashActionModel::Finish,
        }
    }
}

/// The stage and the action with which the writing starts.
pub open spec fn flash_first() -> (FlashStage, FlashActionModel) {
    (FlashStage::Reading, FlashActionModel::Read)
}

/// The stage and the action that follow on an event, where the event is one that the
/// stage waits for.
pub open spec fn flash_next(stage: FlashStage, event: FlashEventModel) -> Option<
    (FlashStage, FlashActionModel),
> {
    match (stage, event) {
        (FlashStage::Reading, FlashEventModel::Read { buffer, bytes_read }) => Some(
            if bytes_read == 0 {
                (FlashStage::Finished, FlashActionModel::Finish)
            } else {
                (
                    FlashStage::Writing,
                    FlashActionModel::Write { block: buffer.take(bytes_read as int) },
                )
            },
        ),
        (FlashStage::Writing, FlashEventModel::Written) => Some(
            (FlashStage::Syncing, FlashActionModel::Sync),
        ),
        (FlashStage::Syncing, FlashEventModel::Synced) => Some(
            (FlashStage::Reading, FlashActionModel::Read),
        ),
        _ => None,
    }
}

/// Starts to write an image to a device: what is to be done first is to read.
pub fn flash_to_usb<'a>() -> (r: (FlashStage, FlashAction<'a>))
    ensures
        (r.0, r.1@) == flash_first(),
{
    (FlashStage::Reading, FlashAction::Read)
}

/// Goes on with the writing: what is to be done next, now that `event` came of what was
/// asked for last. `None` where the stage does not wait for such an event.
pub fn flash_step<'a>(stage: FlashStage, event: FlashEvent<'a>) -> (r: Option<
    (FlashStage, FlashAction<'a>),
>)
    requires
        event matches FlashEvent::Read { buffer, bytes_read } ==> bytes_read <= buffer@.len(),
    ensures
        match (flash_next(stage, event@), r) {
            (Some(expected), Some(got)) => expected == (got.0, got.1@),
            (None, None) => true,
            _ => false,
        },
{
    match (stage, event) {
        (FlashStage::Reading, FlashEvent::Read { buffer, bytes_read }) => {
            match block_to_write(buffer, bytes_read) {
                None => Some((FlashStage::Finished, FlashAction::Finish)),
                Some(block) => Some((FlashStage::Writing, FlashAction::Write { block })),
            }
        },
        (FlashStage::Writing, FlashEvent::Written) => {
            Some((FlashStage::Syncing, FlashAction::Sync))
        },
        (FlashStage::Syncing, FlashEvent::Synced) => {
            Some((FlashStage::Reading, FlashAction::Read))
        },
        _ => None,
    }
}

/// The stage that the writing is in after `events`, where each of them is one that was
/// waited for, and all actions that were asked for: the first, and one for each event.
pub open spec fn flash_run(events: Seq<FlashEventModel>) -> Option<
    (FlashStage, Seq<FlashActionModel>),
>
    decreases events.len(),
{
    if events.len() == 0 {
        Some((flash_first().0, seq![flash_first().1]))
    } else {
        match flash_run(events.drop_last()) {
            Some((stage, actions)) => match flash_next(stage, events.last()) {
                Some((next, action)) => Some((next, actions.push(action))),
                None => None,
            },
            None => None,
        }
    }
}

/// The stage is the one in which `action` is what was asked for last.
pub open spec fn waits_for(stage: FlashStage, action: FlashActionModel) -> bool {
    match stage {
        FlashStage::Reading => action is Read,
        FlashStage::Writing => action is Write,
        FlashStage::Syncing => action is Sync,
        FlashStage::Finished => action is Finish,
    }
}

/// The start of a run is a run.
proof fn lemma_flash_start(
    events: Seq<FlashEventModel>,
    stage: FlashStage,
    actions: Seq<FlashActionModel>,
    i: int,
) -> (at: FlashStage)
    requires
        flash_run(events) == Some((stage, actions)),
        0 <= i <= events.len(),
    ensures
        actions.len() == events.len() + 1,
        flash_run(events.take(i)) == Some((at, actions.take(i + 1))),
        waits_for(at, actions[i]),
        i == events.len() ==> at == stage,
        i < events.len() ==> (flash_next(at, events[i]) matches Some((_, action)) && action
            == actions[i + 1]),
    decreases events.len(),
{
    if events.len() == 0 {
        assert(events.take(i) =~= events);
        assert(actions.take(i + 1) =~= actions);
        stage
    } else {
        let before = events.drop_last();
        let (last, asked) = flash_run(before)->0;
        if i == events.len() {
            let _ = lemma_flash_start(before, last, asked, before.len() as int);
            assert(events.take(i) =~= events);
            assert(actions.take(i + 1) =~= actions);
            stage
        } else {
            let at = lemma_flash_start(before, last, asked, i);
            assert(before.take(i) =~= events.take(i));
            assert(asked.take(i + 1) =~= actions.take(i + 1));
            at
        }
    }
}

/// Each block that is read goes to the device, and the device holds it before the next
/// read; the end follows on a read of nothing, and on nothing else.
///
/// Here `actions[i]` is what was asked for before `events[i]` and after `events[i - 1]`.
pub proof fn law_each_block_is_synced_before_the_next_read(
    events: Seq<FlashEventModel>,
    stage: FlashStage,
    actions: Seq<FlashActionModel>,
    i: int,
)
    requires
        flash_run(events) == Some((stage, actions)),
        0 <= i < events.len(),
    ensures
        actions.len() == events.len() + 1,
        actions[0] is Read,
        actions[i] is Read ==> (events[i] matches FlashEventModel::Read { buffer, bytes_read: n }
            && if n == 0 {
            actions[i + 1] is Finish && i + 1 == events.len()
        } else {
            actions[i + 1] == (FlashActionModel::Write { block: buffer.take(n as int) })
        }),
        actions[i] is Write ==> events[i] is Written && actions[i + 1] is Sync,
        actions[i] is Sync ==> events[i] is Synced && actions[i + 1] is Read,
        !(actions[i] is Finish),
        actions[i + 1] is Finish <==> (events[i] matches FlashEventModel::Read { bytes_read: n, .. }
            && n == 0),
{
    let _ = lemma_flash_start(events, stage, actions, 0);
    let at = lemma_flash_start(events, stage, actions, i);
    let next = lemma_flash_start(events, stage, actions, i + 1);
    assert(events.take(i + 1).drop_last() =~= events.take(i));
}

/// The number of bytes that were read.
pub open spec fn bytes_read(events: Seq<FlashEventModel>) -> nat
    decreases events.len(),
{
    if events.len() == 0 {
        0
    } else {
        bytes_read(events.drop_last()) + match events.last() {
            FlashEventModel::Read { bytes_read, .. } => bytes_read,
            _ => 0,
        }
    }
}

/// The reads walk through `file` from its start: each puts the next bytes into the
/// buffer, as many as it says, and none only at the end.
pub open spec fn reads_walk(file: Seq<u8>, events: Seq<FlashEventModel>) -> bool
    decreases events.len(),
{
    events.len() > 0 ==> {
        &&& reads_walk(file, events.drop_last())
        &&& events.last() matches FlashEventModel::Read { buffer, bytes_read: n } ==> {
            let pos = bytes_read(events.drop_last()) as int;
            &&& n <= buffer.len() && pos + n <= file.len()
            &&& buffer.take(n as int) == file.subrange(pos, pos + n)
            &&& n == 0 ==> pos == file.len()
        }
    }
}

/// The bytes that go to the device over a series of actions.
pub open spec fn device_bytes(actions: Seq<FlashActionModel>) -> Seq<u8>
    decreases actions.len(),
{
    if actions.len() == 0 {
        Seq::empty()
    } else {
        device_bytes(actions.drop_last()) + match actions.last() {
            FlashActionModel::Write { block } => block,
            _ => Seq::empty(),
        }
    }
}

/// At any time the device gets what was read so far, which is the start of the image, and
/// in the end the image: all of its bytes, in their order, and no others. What is left of
/// a longer earlier read in the buffer does not reach it.
pub proof fn law_device_gets_the_image(
    file: Seq<u8>,
    events: Seq<FlashEventModel>,
    stage: FlashStage,
    actions: Seq<FlashActionModel>,
)
    requires
        flash_run(events) == Some((stage, actions)),
        reads_walk(file, events),
    ensures
        bytes_read(events) <= file.len(),
        device_bytes(actions) == file.take(bytes_read(events) as int),
        device_bytes(actions).is_prefix_of(file),
        stage is Finished ==> device_bytes(actions) == file,
    decreases events.len(),
{
    if events.len() == 0 {
        assert(actions.drop_last() =~= Seq::<FlashActionModel>::empty());
        assert(device_bytes(actions.drop_last()) =~= Seq::<u8>::empty());
        assert(device_bytes(actions) =~= file.take(0));
    } else {
        let before = events.drop_last();
        let (last, asked) = flash_run(before)->0;
        law_device_gets_the_image(file, before, last, asked);
        assert(actions.drop_last() =~= asked);
        assert(device_bytes(actions) =~= file.take(bytes_read(events) as int));
    }
    if stage is Finished {
        assert(file.take(file.len() as int) =~= file);
    }
}

/// The writing comes to its end: an image of so many bytes takes no more than three events
/// for each, and one.
pub proof fn law_flashing_comes_to_its_end(
    file: Seq<u8>,
    events: Seq<FlashEventModel>,
    stage: FlashStage,
    actions: Seq<FlashActionModel>,
)
    requires
        flash_run(events) == Some((stage, actions)),
        reads_walk(file, events),
    ensures
        events.len() <= 3 * file.len() + 1,
        events.len() == 3 * file.len() + 1 ==> stage is Finished,
{
    law_device_gets_the_image(file, events, stage, actions);
    lemma_events_taken(events, stage, actions);
}

/// How many events there are for the bytes that were read.
proof fn lemma_events_taken(
    events: Seq<FlashEventModel>,
    stage: FlashStage,
    actions: Seq<FlashActionModel>,
)
    requires
        flash_run(events) == Some((stage, actions)),
    ensures
        events.len() <= 3 * bytes_read(events) + match stage {
            FlashStage::Reading => 0,
            FlashStage::Writing => -2int,
            FlashStage::Syncing => -1,
            FlashStage::Finished => 1,
        },
    decreases events.len(),
{
    if events.len() > 0 {
        let (last, asked) = flash_run(events.drop_last())->0;
        lemma_events_taken(events.drop_last(), last, asked);
    }
}

/// The writing goes on: whatever came of what was asked for, there is a next step. Bytes that
/// were read are all to be written, however many they are; a block that was written is to be
/// synced; and once it is, the image is read on. Only a read of nothing ends the writing.
pub proof fn law_flashing_goes_on(buffer: Seq<u8>, n: nat)
    requires
        n <= buffer.len(),
    ensures
        flash_first() == (FlashStage::Reading, FlashActionModel::Read),
        n > 0 ==> flash_next(
            FlashStage::Reading,
            FlashEventModel::Read { buffer, bytes_read: n },
        ) == Some((FlashStage::Writing, FlashActionModel::Write { block: buffer.take(n as int) })),
        flash_next(FlashStage::Reading, FlashEventModel::Read { buffer, bytes_read: 0 }) == Some(
            (FlashStage::Finished, FlashActionModel::Finish),
        ),
        flash_next(FlashStage::Writing, FlashEventModel::Written) == Some(
            (FlashStage::Syncing, FlashActionModel::Sync),
        ),
        flash_next(FlashStage::Syncing, FlashEventModel::Synced) == Some(
            (FlashStage::Reading, FlashActionModel::Read),
        ),
{
}

/// An event that does not answer what was asked for has no next step, and none has one once
/// the writing is finished.
pub proof fn law_other_events_are_refused(stage: FlashStage, event: FlashEventModel)
    ensures
        flash_next(stage, event) is Some <==> match stage {
            FlashStage::Reading => event is Read,
            FlashStage::Writing => event is Written,
            FlashStage::Syncing => event is Synced,
            FlashStage::Finished => false,
        },
{
}

/// However far the writing is, and however many bytes a read gives at most, it can go on until
/// it is finished and the device has got the image.
///
/// The whole series of events and that of actions are handed out.
pub proof fn law_flashing_can_be_finished(
    file: Seq<u8>,
    events: Seq<FlashEventModel>,
    stage: FlashStage,
    actions: Seq<FlashActionModel>,
    size: nat,
) -> (whole: (Seq<FlashEventModel>, Seq<FlashActionModel>))
    requires
        flash_run(events) == Some((stage, actions)),
        reads_walk(file, events),
        size > 0,
    ensures
        events.is_prefix_of(whole.0),
        flash_run(whole.0) == Some((FlashStage::Finished, whole.1)),
        reads_walk(file, whole.0),
        device_bytes(whole.1) == file,
        forall|i: int|
            events.len() <= i < whole.0.len() ==> (#[trigger] whole.0[i] matches FlashEventModel::Read {
                bytes_read: n,
                ..
            } ==> n <= size && (n < size ==> i + 4 >= whole.0.len())),
    decreases
            file.len() - bytes_read(events),
            match stage {
                FlashStage::Writing => 3int,
                FlashStage::Syncing => 2,
                FlashStage::Reading => 1,
                FlashStage::Finished => 0,
            },
{
    law_device_gets_the_image(file, events, stage, actions);
    if stage is Finished {
        (events, actions)
    } else {
        let pos = bytes_read(events) as int;
        let left = file.len() - pos;
        let n = if left < size {
            left
        } else {
            size as int
        };
        let block = file.subrange(pos, pos + n);
        let event = match stage {
            FlashStage::Writing => FlashEventModel::Written,
            FlashStage::Syncing => FlashEventModel::Synced,
            _ => FlashEventModel::Read { buffer: block, bytes_read: n as nat },
        };
        let (next, action) = flash_next(stage, event)->0;
        let longer = events.push(event);
        assert(longer.drop_last() =~= events);
        assert(block.take(n) =~= block);
        assert(flash_run(longer) == Some((next, actions.push(action))));
        assert(reads_walk(file, longer));
        let whole = law_flashing_can_be_finished(file, longer, next, actions.push(action), size);
        assert(whole.0.subrange(0, longer.len() as int) == longer);
        assert(whole.0.subrange(0, events.len() as int) =~= events) by {
            assert forall|i: int| 0 <= i < events.len() implies whole.0[i] == events[i] by {
                assert(whole.0.subrange(0, longer.len() as int)[i] == longer[i]);
            }
        }
        assert(whole.0.subrange(0, longer.len() as int)[events.len() as int] == event);
        assert(whole.0[events.len() as int] == event);
        if event is Read && n < size {
            lemma_stage_after(file, longer, next, whole.0);
        }
        whole
    }
}

/// Where the writing is, once all of the image was read and some more events came.
proof fn lemma_stage_after(
    file: Seq<u8>,
    events: Seq<FlashEventModel>,
    stage: FlashStage,
    whole: Seq<FlashEventModel>,
)
    requires
        flash_run(events) matches Some((at, _)) && at == stage,
        reads_walk(file, events),
        bytes_read(events) == file.len(),
        events.is_prefix_of(whole),
        flash_run(whole) is Some,
        reads_walk(file, whole),
    ensures
        bytes_read(whole) == file.len(),
        flash_run(whole) matches Some((at, _)) && whole.len() == events.len() + match stage {
            FlashStage::Writing => 3int,
            FlashStage::Syncing => 2,
            FlashStage::Reading => 1,
            FlashStage::Finished => 0,
        } - match at {
            FlashStage::Writing => 3int,
            FlashStage::Syncing => 2,
            FlashStage::Reading => 1,
            FlashStage::Finished => 0,
        },
    decreases whole.len(),
{
    if whole.len() > events.len() {
        let before = whole.drop_last();
        assert(before.subrange(0, events.len() as int) =~= whole.subrange(0, events.len() as int));
        lemma_stage_after(file, events, stage, before);
    } else {
        assert(whole =~= events) by {
            assert(whole.subrange(0, events.len() as int) == events);
        }
    }
}

/// The models of what is handed in and out show all of it.
pub proof fn law_flash_models_show_all(bytes: &[u8], n: usize)
    ensures
        (FlashEvent::Read { buffer: bytes, bytes_read: n })@ == (FlashEventModel::Read {
            buffer: bytes@,
            bytes_read: n as nat,
        }),
        FlashEvent::Written@ == FlashEventModel::Written,
        FlashEvent::Synced@ == FlashEventModel::Synced,
        FlashAction::Read@ == FlashActionModel::Read,
        (FlashAction::Write { block: bytes })@ == (FlashActionModel::Write { block: bytes@ }),
        FlashAction::Sync@ == FlashActionModel::Sync,
        FlashAction::Finish@ == FlashActionModel::Finish,
{
}

} // verus!
