//! Loading one model, step by step.
//!
//! The resources are downloaded first, so that the load is timed with
//! everything on disk. Then a prediction without the required inputs makes the
//! engine start; that it reports an error is expected. Last the predictor's
//! signature is fetched.

use super::batch::Signature;
use super::registry::Loaded;
use crate::inputs::Inputs;
use crate::text::joined;
use crate::value::{Value, ValueView};
use vstd::prelude::*;

verus! {

/// What the next step of a load is.
#[derive(Clone, Copy, Debug, PartialEq, Eq, Structural)]
pub enum LoadStep {
    /// Predict without inputs, which downloads resources without an engine.
    Download,
    /// Predict with a placeholder input, which starts the engine.
    Warm,
    /// Fetch the predictor.
    Retrieve,
}

/// A load in progress.
#[derive(Debug)]
pub struct ModelLoad {
    step: LoadStep,
    handle: u64,
    download: u128,
    load: u128,
}

/// What has been measured of a load.
#[verifier::ext_equal]
pub struct LoadView {
    pub step: LoadStep,
    pub handle: u64,
    pub download: u128,
    pub load: u128,
}

impl View for ModelLoad {
    type V = LoadView;

    closed spec fn view(&self) -> LoadView {
        LoadView {
            step: self.step,
            handle: self.handle,
            download: self.download,
            load: self.load,
        }
    }
}

/// How a prediction that only downloads ended.
pub open spec fn download_result(prediction: Result<Option<String>, String>) -> Result<
    (),
    String,
> {
    match prediction {
        Err(e) => Err(e),
        Ok(Some(error)) => Err(error),
        Ok(None) => Ok(()),
    }
}

/// How a prediction that starts an engine ended.
pub open spec fn warm_result(prediction: Result<Option<String>, String>) -> Result<(), String> {
    match prediction {
        Err(e) => Err(e),
        Ok(_) => Ok(()),
    }
}

/// A load after its download.
pub open spec fn after_download(
    load: LoadView,
    prediction: Result<Option<String>, String>,
    elapsed: u128,
) -> LoadView {
    if download_result(prediction) is Ok {
        LoadView { step: LoadStep::Warm, download: elapsed, ..load }
    } else {
        load
    }
}

/// A load after its engine was started.
pub open spec fn after_warm(
    load: LoadView,
    prediction: Result<Option<String>, String>,
    elapsed: u128,
) -> LoadView {
    if warm_result(prediction) is Ok {
        LoadView { step: LoadStep::Retrieve, load: elapsed, ..load }
    } else {
        load
    }
}

/// Whether a result is that of a load whose predictor was fetched.
pub open spec fn is_loaded(
    r: Result<Loaded, String>,
    load: LoadView,
    tag: Seq<char>,
    predictor: Result<Option<Signature>, String>,
) -> bool {
    match predictor {
        Err(e) => r == Err::<Loaded, String>(e),
        Ok(None) => r matches Err(e) && e@ == "predictor "@ + tag + " not found"@,
        Ok(Some(signature)) => r == Ok::<Loaded, String>(
            Loaded { signature, handle: load.handle, download: load.download, load: load.load },
        ),
    }
}

/// The inputs of the prediction that starts an engine: a placeholder without
/// value, and none of the required ones.
pub fn warm_inputs() -> (r: Inputs)
    ensures
        r.wf(),
        r@ == Map::<Seq<char>, ValueView>::empty().insert("_"@, ValueView::Null),
{
    let mut inputs: Inputs = Inputs::new();
    inputs.insert("_", Value::Null);
    inputs
}

/// How a prediction that only downloads ended: it failed, or it reports an
/// error, or the resources are on disk.
pub fn download_outcome(prediction: Result<Option<String>, String>) -> (r: Result<(), String>)
    ensures
        r == download_result(prediction),
{
    match prediction {
        Err(e) => Err(e),
        Ok(Some(error)) => Err(error),
        Ok(None) => Ok(()),
    }
}

impl ModelLoad {
    /// Starts a load through the client that a handle names.
    pub fn new(handle: u64) -> (r: ModelLoad)
        ensures
            r@ == (LoadView { step: LoadStep::Download, handle, download: 0, load: 0 }),
    {
        ModelLoad { step: LoadStep::Download, handle, download: 0, load: 0 }
    }

    /// The next step.
    pub fn step(&self) -> (r: LoadStep)
        ensures
            r == self@.step,
    {
        self.step
    }

    /// Takes the outcome of the download and its duration: the load goes on
    /// only where it succeeded without a reported error.
    pub fn downloaded(&mut self, prediction: Result<Option<String>, String>, elapsed: u128) -> (r:
        Result<(), String>)
        requires
            old(self)@.step == LoadStep::Download,
        ensures
            r == download_result(prediction),
            final(self)@ == after_download(old(self)@, prediction, elapsed),
    {
        match download_outcome(prediction) {
            Ok(_) => {
                self.step = LoadStep::Warm;
                self.download = elapsed;
                Ok(())
            },
            Err(e) => Err(e),
        }
    }

    /// Takes the outcome of starting the engine and its duration. What the
    /// prediction reports does not matter; only that it could not be made does.
    pub fn warmed(&mut self, prediction: Result<Option<String>, String>, elapsed: u128) -> (r:
        Result<(), String>)
        requires
            old(self)@.step == LoadStep::Warm,
        ensures
            r == warm_result(prediction),
            final(self)@ == after_warm(old(self)@, prediction, elapsed),
    {
        match prediction {
            Ok(_) => {
                self.step = LoadStep::Retrieve;
                self.load = elapsed;
                Ok(())
            },
            Err(e) => Err(e),
        }
    }

    /// Takes the predictor's signature; a predictor that does not exist fails
    /// the load.
    pub fn retrieved(&self, tag: &str, predictor: Result<Option<Signature>, String>) -> (r: Result<
        Loaded,
        String,
    >)
        requires
            self@.step == LoadStep::Retrieve,
        ensures
            is_loaded(r, self@, tag@, predictor),
    {
        match predictor {
            Err(e) => Err(e),
            Ok(None) => {
                let head: String = joined("predictor ", tag);
                Err(joined(head.as_str(), " not found"))
            },
            Ok(Some(signature)) => Ok(
                Loaded {
                    signature,
                    handle: self.handle,
                    download: self.download,
                    load: self.load,
                },
            ),
        }
    }
}

/// A download counts as done exactly where the prediction was made and reports no error;
/// otherwise its error is the load's. The load goes on to start the engine only where it
/// is done, and keeps how long it took.
pub proof fn law_downloads_must_succeed(
    load: LoadView,
    prediction: Result<Option<String>, String>,
    elapsed: u128,
)
    ensures
        download_result(prediction) is Ok <==> prediction == Ok::<Option<String>, String>(None),
        download_result(prediction) matches Err(e) ==> (match prediction {
            Err(f) => e == f,
            Ok(reported) => reported == Some(e),
        }),
        download_result(prediction) is Ok ==> ({
            let next = after_download(load, prediction, elapsed);
            &&& next.step == LoadStep::Warm
            &&& next.download == elapsed
            &&& next.handle == load.handle
            &&& next.load == load.load
        }),
        download_result(prediction) is Err ==> after_download(load, prediction, elapsed) == load,
{
}

/// Starting the engine fails only where the prediction could not be made: one without the
/// required inputs reports an error, and that is expected. The time of the start is kept
/// apart from that of the download.
pub proof fn law_warming_ignores_reported_errors(
    load: LoadView,
    prediction: Result<Option<String>, String>,
    elapsed: u128,
)
    ensures
        warm_result(prediction) is Ok <==> prediction is Ok,
        warm_result(prediction) matches Err(e) ==> prediction == Err::<Option<String>, String>(e),
        prediction is Ok ==> ({
            let next = after_warm(load, prediction, elapsed);
            &&& next.step == LoadStep::Retrieve
            &&& next.load == elapsed
            &&& next.download == load.download
            &&& next.handle == load.handle
        }),
        prediction is Err ==> after_warm(load, prediction, elapsed) == load,
{
}

/// A load yields its predictor's signature, the handle that it started with, and both
/// times as they were measured.
pub proof fn law_loads_yield_what_was_measured(
    r: Result<Loaded, String>,
    handle: u64,
    download: u128,
    load: u128,
    tag: Seq<char>,
    predictor: Result<Option<Signature>, String>,
)
    requires
        ({
            let begun = LoadView { step: LoadStep::Download, handle, download: 0, load: 0 };
            let fetched = after_download(begun, Ok(None), download);
            is_loaded(r, after_warm(fetched, Ok(None), load), tag, predictor)
        }),
    ensures
        r is Ok <==> predictor is Ok && predictor->Ok_0 is Some,
        r matches Ok(loaded) ==> loaded.handle == handle && loaded.download == download
            && loaded.load == load && Some(loaded.signature) == predictor->Ok_0,
        predictor matches Err(e) ==> r == Err::<Loaded, String>(e),
{
}

} // verus!
