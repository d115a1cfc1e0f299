//! Output records, and the router that decides where each record is written.
use vstd::prelude::*;
use crate::redirect::{OutputConf, OutputConfView, OutputMode};

verus! {

/// The stream an output record belongs to.
#[derive(Clone, Copy, Debug, PartialEq, Eq, Structural)]
pub enum OutputMsgType {
    StdOut,
    StdErr,
}

/// One piece of output of a command: a text and the stream it belongs to.
#[derive(Debug, PartialEq, Eq)]
pub struct OutputMsg {
    pub message: String,
    pub msg_type: OutputMsgType,
}

/// An output record as mathematics.
pub struct OutputMsgView {
    pub message: Seq<char>,
    pub msg_type: OutputMsgType,
}

impl DeepView for OutputMsg {
    type V = OutputMsgView;

    open spec fn deep_view(&self) -> OutputMsgView {
        OutputMsgView { message: self.message@, msg_type: self.msg_type }
    }
}

impl View for OutputMsg {
    type V = OutputMsgView;

    open spec fn view(&self) -> OutputMsgView {
        self.deep_view()
    }
}

impl Clone for OutputMsg {
    fn clone(&self) -> (copy: OutputMsg)
        ensures
            copy@ == self@,
    {
        OutputMsg { message: self.message.clone(), msg_type: self.msg_type }
    }
}

/// A record for the standard output.
pub fn msg(message: String) -> (record: OutputMsg)
    ensures
        record@ == (OutputMsgView { message: message@, msg_type: OutputMsgType::StdOut }),
{
    OutputMsg { message: message, msg_type: OutputMsgType::StdOut }
}

/// A record for the standard error.
pub fn err(message: String) -> (record: OutputMsg)
    ensures
        record@ == (OutputMsgView { message: message@, msg_type: OutputMsgType::StdErr }),
{
    OutputMsg { message: message, msg_type: OutputMsgType::StdErr }
}

/// One end of an anonymous pipe of a pipeline. Pipe `i` joins stage `i` to
/// stage `i + 1`.
#[derive(Clone, Copy, Debug, PartialEq, Eq, Hash, Structural)]
pub enum PipeEnd {
    /// The end that is read from.
    Read(usize),
    /// The end that is written to.
    Write(usize),
}

/// Where a text is written.
#[derive(Debug, PartialEq, Eq)]
pub enum Sink {
    /// The shell's own standard output.
    Stdout,
    /// The shell's own standard error.
    Stderr,
    /// The file at this path, created if missing and emptied before the write.
    Truncate(String),
    /// The file at this path, created if missing and written at its end.
    Append(String),
    /// This end of a pipe, which stays open after the write.
    Pipe(PipeEnd),
}

/// A sink as mathematics.
pub enum SinkView {
    Stdout,
    Stderr,
    Truncate(Seq<char>),
    Append(Seq<char>),
    Pipe(PipeEnd),
}

impl DeepView for Sink {
    type V = SinkView;

    open spec fn deep_view(&self) -> SinkView {
        match self {
            Sink::Stdout => SinkView::Stdout,
            Sink::Stderr => SinkView::Stderr,
            Sink::Truncate(path) => SinkView::Truncate(path@),
            Sink::Append(path) => SinkView::Append(path@),
            Sink::Pipe(end) => SinkView::Pipe(*end),
        }
    }
}

impl View for Sink {
    type V = SinkView;

    open spec fn view(&self) -> SinkView {
        self.deep_view()
    }
}

impl Clone for Sink {
    fn clone(&self) -> (copy: Sink)
        ensures
            copy@ == self@,
    {
        match self {
            Sink::Stdout => Sink::Stdout,
            Sink::Stderr => Sink::Stderr,
            Sink::Truncate(path) => Sink::Truncate(path.clone()),
            Sink::Append(path) => Sink::Append(path.clone()),
            Sink::Pipe(end) => Sink::Pipe(*end),
        }
    }
}

/// One write the caller is to perform: open the sink, write the text, close.
#[derive(Debug, PartialEq, Eq)]
pub struct Delivery {
    pub sink: Sink,
    pub text: String,
}

/// A write as mathematics.
pub struct DeliveryView {
    pub sink: SinkView,
    pub text: Seq<char>,
}

impl DeepView for Delivery {
    type V = DeliveryView;

    open spec fn deep_view(&self) -> DeliveryView {
        DeliveryView { sink: self.sink@, text: self.text@ }
    }
}

impl View for Delivery {
    type V = DeliveryView;

    open spec fn view(&self) -> DeliveryView {
        self.deep_view()
    }
}

impl Clone for Delivery {
    fn clone(&self) -> (copy: Delivery)
        ensures
            copy@ == self@,
    {
        Delivery { sink: self.sink.clone(), text: self.text.clone() }
    }
}

/// The write that makes sure a redirection target exists: nothing, appended.
pub open spec fn touch(target: Seq<char>) -> DeliveryView {
    DeliveryView { sink: SinkView::Append(target), text: Seq::empty() }
}

/// The writes that come before any record: one touch for each stream that has
/// a target, the standard output first.
pub open spec fn touches(plan: OutputConfView) -> Seq<DeliveryView> {
    let out = if plan.std_out.len() > 0 {
        seq![touch(plan.std_out)]
    } else {
        Seq::empty()
    };
    if plan.std_err.len() > 0 {
        out.push(touch(plan.std_err))
    } else {
        out
    }
}

/// The sink of a stream under a plan: the shell's own stream, or the stream's
/// target, emptied first or not as the mode says.
pub open spec fn sink_of(stream: OutputMsgType, plan: OutputConfView) -> SinkView {
    match stream {
        OutputMsgType::StdOut => match plan.std_out_mode {
            OutputMode::Default => SinkView::Stdout,
            OutputMode::File => SinkView::Truncate(plan.std_out),
            OutputMode::FileAppend => SinkView::Append(plan.std_out),
        },
        OutputMsgType::StdErr => match plan.std_err_mode {
            OutputMode::Default => SinkView::Stderr,
            OutputMode::File => SinkView::Truncate(plan.std_err),
            OutputMode::FileAppend => SinkView::Append(plan.std_err),
        },
    }
}

/// The write for one record: its text and a newline, to the sink of its
/// stream.
pub open spec fn delivery_of(record: OutputMsgView, plan: OutputConfView) -> DeliveryView {
    DeliveryView { sink: sink_of(record.msg_type, plan), text: record.message.push('\n') }
}

/// The writes for the records among `outputs`, one per record, in the order of
/// the records.
pub open spec fn deliveries(outputs: Seq<Option<OutputMsgView>>, plan: OutputConfView) -> Seq<
    DeliveryView,
>
    decreases outputs.len(),
{
    if outputs.len() == 0 {
        Seq::empty()
    } else {
        let before = deliveries(outputs.drop_last(), plan);
        match outputs.last() {
            Some(record) => before.push(delivery_of(record, plan)),
            None => before,
        }
    }
}

/// All the writes for the output of one command under a plan.
pub open spec fn routed(outputs: Seq<Option<OutputMsgView>>, plan: OutputConfView) -> Seq<
    DeliveryView,
> {
    touches(plan) + deliveries(outputs, plan)
}

fn sink_for(stream: OutputMsgType, conf: &OutputConf) -> (sink: Sink)
    ensures
        sink@ == sink_of(stream, conf@),
{
    match stream {
        OutputMsgType::StdOut => match conf.std_out_mode {
            OutputMode::Default => Sink::Stdout,
            OutputMode::File => Sink::Truncate(conf.std_out.clone()),
            OutputMode::FileAppend => Sink::Append(conf.std_out.clone()),
        },
        OutputMsgType::StdErr => match conf.std_err_mode {
            OutputMode::Default => Sink::Stderr,
            OutputMode::File => Sink::Truncate(conf.std_err.clone()),
            OutputMode::FileAppend => Sink::Append(conf.std_err.clone()),
        },
    }
}

/// Routes the output of one command: the list of writes to perform, in order.
///
/// First every stream that has a target gets an empty append, so that the
/// file exists even if no record follows. Then each record is written with a
/// newline after it, in the order the command produced them: to the shell's
/// own stream, or to the target of its stream, which a truncating plan empties
/// before every single record.
pub fn output_handler(outputs: Vec<Option<OutputMsg>>, output_conf: OutputConf) -> (writes: Vec<
    Delivery,
>)
    ensures
        writes.deep_view() == routed(outputs.deep_view(), output_conf@),
{
    let mut writes: Vec<Delivery> = Vec::new();
    assert(writes.deep_view() =~= Seq::<DeliveryView>::empty());
    if !output_conf.std_out.as_str().is_empty() {
        let ghost before = writes.deep_view();
        writes.push(Delivery { sink: Sink::Append(output_conf.std_out.clone()), text: String::new() });
        assert(writes.deep_view() =~= before.push(touch(output_conf.std_out@)));
    }
    if !output_conf.std_err.as_str().is_empty() {
        let ghost before = writes.deep_view();
        writes.push(Delivery { sink: Sink::Append(output_conf.std_err.clone()), text: String::new() });
        assert(writes.deep_view() =~= before.push(touch(output_conf.std_err@)));
    }
    assert(writes.deep_view() =~= touches(output_conf@));
    let mut i: usize = 0;
    assert(outputs.deep_view().take(0) =~= Seq::<Option<OutputMsgView>>::empty());
    while i < outputs.len()
        invariant
            i <= outputs.len(),
            writes.deep_view() == touches(output_conf@) + deliveries(
                outputs.deep_view().take(i as int),
                output_conf@,
            ),
        decreases outputs.len() - i,
    {
        let ghost all = outputs.deep_view();
        let ghost before = writes.deep_view();
        proof {
            assert(all.take(i + 1).drop_last() =~= all.take(i as int));
            assert(all.take(i + 1).last() == outputs[i as int].deep_view());
        }
        match &outputs[i] {
            Some(record) => {
                let mut text = record.message.clone();
                text.push('\n');
                let sink = sink_for(record.msg_type, &output_conf);
                writes.push(Delivery { sink, text });
                assert(writes.deep_view() =~= before.push(delivery_of(record@, output_conf@)));
            },
            None => {},
        }
        i += 1;
    }
    assert(outputs.deep_view().take(outputs.len() as int) =~= outputs.deep_view());
    writes
}

/// The write for one record of a stage whose standard output is a pipe: a
/// record for the standard output goes into the pipe, one for the standard
/// error to the shell's own standard error; either with a newline after it.
pub open spec fn piped_delivery_of(record: OutputMsgView, end: PipeEnd) -> DeliveryView {
    DeliveryView {
        sink: match record.msg_type {
            OutputMsgType::StdOut => SinkView::Pipe(end),
            OutputMsgType::StdErr => SinkView::Stderr,
        },
        text: record.message.push('\n'),
    }
}

/// The writes for the records among `outputs` when the standard output is a
/// pipe, one per record, in the order of the records.
pub open spec fn piped(outputs: Seq<Option<OutputMsgView>>, end: PipeEnd) -> Seq<DeliveryView>
    decreases outputs.len(),
{
    if outputs.len() == 0 {
        Seq::empty()
    } else {
        let before = piped(outputs.drop_last(), end);
        match outputs.last() {
            Some(record) => before.push(piped_delivery_of(record, end)),
            None => before,
        }
    }
}

/// Routes the output of a built-in that stands before a pipe: the list of
/// writes to perform, in order.
pub fn output_to_pipe(outputs: &Vec<Option<OutputMsg>>, end: PipeEnd) -> (writes: Vec<Delivery>)
    ensures
        writes.deep_view() == piped(outputs.deep_view(), end),
{
    let mut writes: Vec<Delivery> = Vec::new();
    assert(writes.deep_view() =~= Seq::<DeliveryView>::empty());
    let mut i: usize = 0;
    assert(outputs.deep_view().take(0) =~= Seq::<Option<OutputMsgView>>::empty());
    while i < outputs.len()
        invariant
            i <= outputs.len(),
            writes.deep_view() == piped(outputs.deep_view().take(i as int), end),
        decreases outputs.len() - i,
    {
        let ghost all = outputs.deep_view();
        let ghost before = writes.deep_view();
        proof {
            assert(all.take(i + 1).drop_last() =~= all.take(i as int));
            assert(all.take(i + 1).last() == outputs[i as int].deep_view());
        }
        match &outputs[i] {
            Some(record) => {
                let mut text = record.message.clone();
                text.push('\n');
                let sink = match record.msg_type {
                    OutputMsgType::StdOut => Sink::Pipe(end),
                    OutputMsgType::StdErr => Sink::Stderr,
                };
                writes.push(Delivery { sink, text });
                assert(writes.deep_view() =~= before.push(piped_delivery_of(record@, end)));
            },
            None => {},
        }
        i += 1;
    }
    assert(outputs.deep_view().take(outputs.len() as int) =~= outputs.deep_view());
    writes
}

/// Routes the output of a built-in that ran as a stage: into the pipe after
/// the stage if there is one, otherwise as the stage's plan says.
pub fn stage_deliveries(
    outputs: Vec<Option<OutputMsg>>,
    output_conf: OutputConf,
    stdout: Option<PipeEnd>,
) -> (writes: Vec<Delivery>)
    ensures
        writes.deep_view() == (match stdout {
            Some(end) => piped(outputs.deep_view(), end),
            None => routed(outputs.deep_view(), output_conf@),
        }),
{
    match stdout {
        Some(end) => output_to_pipe(&outputs, end),
        None => output_handler(outputs, output_conf),
    }
}

} // verus!
