use vstd::prelude::*;
use vstd::string::StringExecFns;
use crate::config::Config;
use crate::depth::{drop_passes, reduce_buffer, stack_view, thinned_stack};
use crate::fixed::Milli;

verus! {

/// The styles in which a mesh can be built.
#[derive(Clone, Copy, Debug, PartialEq, Eq, Structural)]
pub enum Visualisation {
    Bars1,
    Bars2,
}

/// All that a mesh builder is handed: the style, the frames, newest first,
/// and the scales of the geometry and of the volume, in thousandths.
pub struct MeshJob {
    pub visualisation: Visualisation,
    pub buffer: Vec<Vec<u32>>,
    pub width: Milli,
    pub z_width: Milli,
    pub volume_amplitude: Milli,
    pub volume_factoring: Milli,
}

/// The style that a name stands for, if it stands for one.
pub open spec fn named(name: Seq<char>) -> Option<Visualisation> {
    if name == "Bars1"@ {
        Some(Visualisation::Bars1)
    } else if name == "Bars2"@ {
        Some(Visualisation::Bars2)
    } else {
        None
    }
}

/// What is said of a name that stands for no style.
pub open spec fn unknown_message() -> Seq<char> {
    "invalid visualisation"@
}

/// The newest frame of a stack is never thinned, so a stack of one frame
/// or none is left as it is.
pub proof fn lemma_newest_stays(stack: Seq<Seq<u32>>, resolution_drop: int, max_drop: nat)
    ensures
        stack.len() > 0 ==> thinned_stack(stack, resolution_drop, max_drop)[0] == stack[0],
        stack.len() <= 1 ==> thinned_stack(stack, resolution_drop, max_drop) == stack,
{
    assert(drop_passes(0, resolution_drop, max_drop) == 0);
    if stack.len() <= 1 {
        assert(thinned_stack(stack, resolution_drop, max_drop) =~= stack);
    }
}

/// Finds the style that a name stands for.
pub fn select(name: &String) -> (style: Option<Visualisation>)
    ensures
        style == named(name@),
{
    if *name == String::from_str("Bars1") {
        Some(Visualisation::Bars1)
    } else if *name == String::from_str("Bars2") {
        Some(Visualisation::Bars2)
    } else {
        None
    }
}

/// Makes a copy of the history ready for the mesh builder.
///
/// The frames behind the newest are thinned as their depth calls for, and
/// the style is looked up by its configured name. A name that stands for no
/// style is a fault of the configuration from which there is no way on: it
/// is reported, and no mesh can be built.
pub fn prepare(buffer: Vec<Vec<u32>>, config: &Config) -> (result: Result<MeshJob, String>)
    ensures
        match named(config.visual.visualisation@) {
            None => result matches Err(message) && message@ == unknown_message(),
            Some(style) => result matches Ok(job) && job.visualisation == style && stack_view(
                job.buffer,
            ) == thinned_stack(
                stack_view(buffer),
                config.processing.buffer_resolution_drop as int,
                config.processing.max_buffer_resolution_drop as nat,
            ) && job.width == config.visual.width && job.z_width == config.visual.z_width
                && job.volume_amplitude == config.audio.volume_amplitude && job.volume_factoring
                == config.audio.volume_factoring,
        },
{
    let mut buffer = buffer;
    proof {
        lemma_newest_stays(
            stack_view(buffer),
            config.processing.buffer_resolution_drop as int,
            config.processing.max_buffer_resolution_drop as nat,
        );
    }
    if buffer.len() > 1 {
        reduce_buffer(
            &mut buffer,
            config.processing.buffer_resolution_drop,
            config.processing.max_buffer_resolution_drop,
        );
    }
    match select(&config.visual.visualisation) {
        Some(visualisation) => Ok(
            MeshJob {
                visualisation,
                buffer,
                width: config.visual.width,
                z_width: config.visual.z_width,
                volume_amplitude: config.audio.volume_amplitude,
                volume_factoring: config.audio.volume_factoring,
            },
        ),
        None => Err(String::from_str("invalid visualisation")),
    }
}

} // verus!
