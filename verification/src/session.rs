//! How the session of an inference runtime is set up.

use crate::error::{Error, ErrorModel};
use vstd::prelude::*;

verus! {

/// A setting of a session builder.
#[derive(Debug)]
pub enum SessionSetting {
    /// The execution providers that the caller chose.
    ExecutionProviders,
    /// All graph optimizations.
    FullOptimization,
    /// The threads within an operator.
    IntraThreads(usize),
    /// A key and its value.
    ConfigEntry(String, String),
    /// Whether memory is laid out ahead.
    MemoryPattern(bool),
    /// Whether operators run in parallel.
    ParallelExecution(bool),
}

/// [`SessionSetting`] with sequences.
pub enum SettingModel {
    ExecutionProviders,
    FullOptimization,
    IntraThreads(usize),
    ConfigEntry(Seq<char>, Seq<char>),
    MemoryPattern(bool),
    ParallelExecution(bool),
}

impl View for SessionSetting {
    type V = SettingModel;

    open spec fn view(&self) -> SettingModel {
        match *self {
            SessionSetting::ExecutionProviders => SettingModel::ExecutionProviders,
            SessionSetting::FullOptimization => SettingModel::FullOptimization,
            SessionSetting::IntraThreads(threads) => SettingModel::IntraThreads(threads),
            SessionSetting::ConfigEntry(key, value) => SettingModel::ConfigEntry(key@, value@),
            SessionSetting::MemoryPattern(enabled) => SettingModel::MemoryPattern(enabled),
            SessionSetting::ParallelExecution(enabled) => SettingModel::ParallelExecution(enabled),
        }
    }
}

/// Settings with sequences.
pub open spec fn settings_model(settings: Seq<SessionSetting>) -> Seq<SettingModel> {
    settings.map_values(|setting: SessionSetting| setting@)
}

/// The entries of a configuration as settings.
pub open spec fn entries(config: Seq<(String, String)>) -> Seq<SettingModel> {
    config.map_values(|entry: (String, String)| SettingModel::ConfigEntry(entry.0@, entry.1@))
}

/// The settings of a session in the order in which they are applied: providers,
/// optimization, threads, the entries of the configuration, and with DirectML, which
/// supports neither, no memory pattern and no parallel execution.
pub open spec fn session_plan(
    threads: usize,
    config: Seq<(String, String)>,
    directml: bool,
) -> Seq<SettingModel> {
    let all = seq![
        SettingModel::ExecutionProviders,
        SettingModel::FullOptimization,
        SettingModel::IntraThreads(threads),
    ] + entries(config);
    if directml {
        all + seq![SettingModel::MemoryPattern(false), SettingModel::ParallelExecution(false)]
    } else {
        all
    }
}

/// Settles the settings of a session. The threads are those asked for, else those that
/// are available; where that is not known either, there is an error.
pub fn session_settings(
    intra_threads: Option<usize>,
    available: Result<usize, String>,
    session_config: Vec<(String, String)>,
    directml: bool,
) -> (settings: Result<Vec<SessionSetting>, Error>)
    ensures
        match (intra_threads, available) {
            (Some(threads), _) => settings matches Ok(settings) && settings_model(settings@)
                == session_plan(threads, session_config@, directml),
            (None, Ok(threads)) => settings matches Ok(settings) && settings_model(settings@)
                == session_plan(threads, session_config@, directml),
            (None, Err(text)) => settings matches Err(error) && error@ == ErrorModel::Io(text@),
        },
{
    let threads: usize = match (intra_threads, available) {
        (Some(threads), _) => threads,
        (None, Ok(threads)) => threads,
        (None, Err(text)) => return Err(Error::Io(text)),
    };
    let mut settings: Vec<SessionSetting> = Vec::new();
    settings.push(SessionSetting::ExecutionProviders);
    settings.push(SessionSetting::FullOptimization);
    settings.push(SessionSetting::IntraThreads(threads));
    let ghost first = settings_model(settings@);
    assert(first =~= seq![
        SettingModel::ExecutionProviders,
        SettingModel::FullOptimization,
        SettingModel::IntraThreads(threads),
    ]);
    assert(settings_model(settings@) =~= first + entries(session_config@.take(0)));
    let mut i: usize = 0;
    while i < session_config.len()
        invariant
            i <= session_config@.len(),
            settings_model(settings@) == first + entries(session_config@.take(i as int)),
        decreases session_config@.len() - i,
    {
        let ghost before = settings_model(settings@);
        let (key, value): (String, String) = (
            session_config[i].0.clone(),
            session_config[i].1.clone(),
        );
        settings.push(SessionSetting::ConfigEntry(key, value));
        assert(settings_model(settings@) =~= before.push(
            SettingModel::ConfigEntry(key@, value@),
        ));
        assert(entries(session_config@.take(i + 1)) =~= entries(
            session_config@.take(i as int),
        ).push(SettingModel::ConfigEntry(key@, value@)));
        i += 1;
    }
    assert(session_config@.take(i as int) =~= session_config@);
    if directml {
        settings.push(SessionSetting::MemoryPattern(false));
        settings.push(SessionSetting::ParallelExecution(false));
    }
    assert(settings_model(settings@) =~= session_plan(threads, session_config@, directml));
    Ok(settings)
}

/// A session is set up with its providers first, all optimizations then, and the threads that
/// are asked for, or all that are available where none are; every entry of the configuration
/// follows in order; and with DirectML memory is not laid out ahead and nothing runs in
/// parallel. Where it is not known how many threads there are, there is an error.
pub proof fn sessions_are_set_up_in_order(
    intra_threads: Option<usize>,
    available: Result<usize, String>,
    config: Vec<(String, String)>,
    directml: bool,
    settings: Result<Vec<SessionSetting>, Error>,
)
    requires
        call_ensures(session_settings, (intra_threads, available, config, directml), settings),
    ensures
        intra_threads is None && available is Err ==> (settings matches Err(Error::Io(text))
            && text@ == available->Err_0@),
        intra_threads is Some || available is Ok ==> (settings matches Ok(settings) && {
            let threads = if intra_threads is Some {
                intra_threads->0
            } else {
                available->Ok_0
            };
            &&& settings@.len() == 3 + config@.len() + (if directml {
                2int
            } else {
                0
            })
            &&& settings@[0] == SessionSetting::ExecutionProviders
            &&& settings@[1] == SessionSetting::FullOptimization
            &&& settings@[2] == SessionSetting::IntraThreads(threads)
            &&& forall|k: int|
                3 <= k < 3 + config@.len() ==> (
                #[trigger] settings@[k] matches SessionSetting::ConfigEntry(key, value) && key@
                    == config@[k - 3].0@ && value@ == config@[k - 3].1@)
            &&& directml ==> settings@[settings@.len() - 2] == SessionSetting::MemoryPattern(false)
            &&& directml ==> settings@[settings@.len() - 1] == SessionSetting::ParallelExecution(
                false,
            )
        }),
{
    if intra_threads is Some || available is Ok {
        let threads = if intra_threads is Some {
            intra_threads->0
        } else {
            available->Ok_0
        };
        let all = settings->Ok_0@;
        let plan = session_plan(threads, config@, directml);
        assert(settings_model(all) == plan);
        assert(all.len() == plan.len());
        assert forall|k: int| 0 <= k < all.len() implies #[trigger] all[k]@ == plan[k] by {
            assert(settings_model(all)[k] == all[k]@);
        }
        assert(all[0]@ == plan[0] && all[1]@ == plan[1] && all[2]@ == plan[2]);
        assert forall|k: int| 3 <= k < 3 + config@.len() implies (
        #[trigger] all[k] matches SessionSetting::ConfigEntry(key, value) && key@ == config@[k
            - 3].0@ && value@ == config@[k - 3].1@) by {
            assert(plan[k] == entries(config@)[k - 3]);
            assert(all[k]@ == plan[k]);
        }
        if directml {
            assert(all[all.len() - 2]@ == plan[plan.len() - 2]);
            assert(all[all.len() - 1]@ == plan[plan.len() - 1]);
        }
    }
}

}
