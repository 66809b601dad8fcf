//! What a run is asked to do.
use vstd::prelude::*;
use vstd::string::*;

use crate::error::{invalid, invalid_input, Error};
use crate::text::{join2, join4, parse_size, parse_unsigned, split, starts_with, str_eq};
#[allow(unused_imports)]
use crate::error::Fault;

verus! {

/// What is said of a text that is no number.
pub open spec fn no_number(text: Seq<char>, label: Seq<char>) -> Fault {
    crate::error::bad_input("invalid "@ + label + ": "@ + text)
}

/// The number that a text gives.
pub open spec fn number_of(text: Seq<char>, label: Seq<char>) -> Result<u64, Fault> {
    match crate::text::unsigned_value(text, u64::MAX as nat) {
        Some(n) => Ok(n as u64),
        None => Err(no_number(text, label)),
    }
}

/// The size that a text gives.
pub open spec fn size_of(text: Seq<char>, label: Seq<char>) -> Result<usize, Fault> {
    match crate::text::unsigned_value(text, usize::MAX as nat) {
        Some(n) => Ok(n as usize),
        None => Err(no_number(text, label)),
    }
}

/// The number that a text gives.
pub fn parse_u64(value: &str, label: &str) -> (r: Result<u64, Error>)
    ensures
        crate::error::agrees(r, number_of(value@, label@)),
{
    match parse_unsigned(value, u64::MAX) {
        Some(n) => Ok(n),
        None => Err(invalid_input(join4("invalid ", label, ": ", value))),
    }
}

/// The size that a text gives.
pub fn parse_usize(value: &str, label: &str) -> (r: Result<usize, Error>)
    ensures
        crate::error::agrees(r, size_of(value@, label@)),
{
    match parse_size(value) {
        Some(n) => Ok(n),
        None => Err(invalid_input(join4("invalid ", label, ": ", value))),
    }
}

/// The sizes that some texts give, in turn.
pub open spec fn sizes_of(parts: Seq<Seq<char>>, label: Seq<char>) -> Result<Seq<usize>, Fault>
    decreases parts.len(),
{
    if parts.len() == 0 {
        Ok(Seq::empty())
    } else {
        match sizes_of(parts.drop_last(), label) {
            Err(e) => Err(e),
            Ok(list) => match size_of(parts.last(), label) {
                Err(e) => Err(e),
                Ok(n) => Ok(list.push(n)),
            },
        }
    }
}

/// The processors that a text lists, separated by commas.
pub open spec fn cpus_of(text: Seq<char>) -> Result<Seq<usize>, Fault> {
    if text.len() == 0 {
        Err(crate::error::bad_input("CPU_LIST is empty"@))
    } else {
        sizes_of(crate::text::split_text(text, ','), "CPU_LIST"@)
    }
}

proof fn lemma_sizes_fail(parts: Seq<Seq<char>>, label: Seq<char>, n: int)
    requires
        0 <= n <= parts.len(),
        sizes_of(parts.subrange(0, n), label) is Err,
    ensures
        sizes_of(parts, label) == sizes_of(parts.subrange(0, n), label),
    decreases parts.len() - n,
{
    if n == parts.len() {
        assert(parts.subrange(0, n) =~= parts);
    } else {
        let next = parts.subrange(0, n + 1);
        assert(next.drop_last() =~= parts.subrange(0, n));
        lemma_sizes_fail(parts, label, n + 1);
    }
}

/// The sizes that some texts give, in turn.
pub fn parse_sizes(parts: &Vec<String>, label: &str) -> (r: Result<Vec<usize>, Error>)
    ensures
        match r {
            Ok(v) => sizes_of(crate::text::texts(parts@), label@) == Ok::<Seq<usize>, Fault>(v@),
            Err(e) => sizes_of(crate::text::texts(parts@), label@) == Err::<Seq<usize>, Fault>(e@),
        },
{
    let mut list: Vec<usize> = Vec::new();
    let count: usize = parts.len();
    let ghost views = crate::text::texts(parts@);
    let mut i: usize = 0;
    proof {
        assert(views.subrange(0, 0) =~= Seq::<Seq<char>>::empty());
        assert(list@ =~= Seq::<usize>::empty());
    }
    while i < count
        invariant
            i <= count,
            count == parts@.len(),
            views == crate::text::texts(parts@),
            sizes_of(views.subrange(0, i as int), label@) == Ok::<Seq<usize>, Fault>(list@),
        decreases count - i,
    {
        proof {
            let next = views.subrange(0, i + 1);
            assert(next.drop_last() =~= views.subrange(0, i as int));
            assert(next.last() == parts@[i as int]@);
        }
        match parse_usize(parts[i].as_str(), label) {
            Ok(n) => {
                list.push(n);
            },
            Err(e) => {
                proof {
                    lemma_sizes_fail(views, label@, i + 1);
                }
                return Err(e);
            },
        }
        i = i + 1;
    }
    proof {
        assert(views.subrange(0, i as int) =~= views);
    }
    Ok(list)
}

/// The processors that a text lists.
pub fn parse_cpu_list(value: &str) -> (r: Result<Vec<usize>, Error>)
    ensures
        match r {
            Ok(v) => cpus_of(value@) == Ok::<Seq<usize>, Fault>(v@),
            Err(e) => cpus_of(value@) == Err::<Seq<usize>, Fault>(e@),
        },
{
    if value.is_empty() {
        return Err(invalid("CPU_LIST is empty"));
    }
    let parts: Vec<String> = split(value, ',');
    parse_sizes(&parts, "CPU_LIST")
}

/// How blocks are copied.
#[derive(Clone, Copy, Debug, PartialEq, Eq, Structural)]
pub enum CopyMethod {
    Buffered,
    CopyFileRange,
}

/// What the environment says.
#[derive(Debug)]
pub struct Environment {
    pub leaf_partitions: Option<String>,
    pub copy_rate: Option<String>,
    pub min_copy_rate: Option<String>,
    pub adaptive: Option<String>,
    pub copy_method: Option<String>,
}

/// What is meant by [`Environment`].
pub struct EnvironmentView {
    pub leaf_partitions: Option<Seq<char>>,
    pub copy_rate: Option<Seq<char>>,
    pub min_copy_rate: Option<Seq<char>>,
    pub adaptive: Option<Seq<char>>,
    pub copy_method: Option<Seq<char>>,
}

impl View for Environment {
    type V = EnvironmentView;

    open spec fn view(&self) -> EnvironmentView {
        EnvironmentView {
            leaf_partitions: crate::args::said(self.leaf_partitions),
            copy_rate: crate::args::said(self.copy_rate),
            min_copy_rate: crate::args::said(self.min_copy_rate),
            adaptive: crate::args::said(self.adaptive),
            copy_method: crate::args::said(self.copy_method),
        }
    }
}

/// How fast blocks are copied.
#[derive(Clone, Copy, Debug, PartialEq, Eq, Structural)]
pub struct CopyRates {
    pub initial: u64,
    pub minimum: u64,
    pub adaptive: bool,
}

/// The bytes per second of a setting in mebibytes, or of what is usual.
pub open spec fn rate_of(setting: Option<Seq<char>>, usual: u64, label: Seq<char>, large: Seq<char>) -> Result<
    u64,
    Fault,
> {
    let rate = match setting {
        Some(text) => number_of(text, label),
        None => Ok(usual),
    };
    match rate {
        Err(e) => Err(e),
        Ok(n) => if n * 1048576 > u64::MAX {
            Err(crate::error::bad_input(large))
        } else {
            Ok((n * 1048576) as u64)
        },
    }
}

/// How fast blocks are copied. Without a setting the rate adapts where a first one is given.
pub open spec fn rates_due(env: EnvironmentView) -> Result<CopyRates, Fault> {
    match rate_of(env.copy_rate, 0, "ZCVOLUME_COPY_RATE_MIB_S"@, "copy rate overflow"@) {
        Err(e) => Err(e),
        Ok(initial) => match rate_of(
            env.min_copy_rate,
            64,
            "ZCVOLUME_MIN_COPY_RATE_MIB_S"@,
            "minimum copy rate overflow"@,
        ) {
            Err(e) => Err(e),
            Ok(minimum) => {
                let adaptive = match env.adaptive {
                    Some(text) => text != "0"@,
                    None => initial != 0,
                };
                if minimum == 0 {
                    Err(crate::error::bad_input("minimum copy rate must be nonzero"@))
                } else if adaptive && initial != 0 && minimum > initial {
                    Err(
                        crate::error::bad_input(
                            "minimum copy rate cannot exceed the initial adaptive copy rate"@,
                        ),
                    )
                } else {
                    Ok(CopyRates { initial, minimum, adaptive })
                }
            },
        },
    }
}

fn parse_rate(setting: &Option<String>, usual: u64, label: &str, large: &str) -> (r: Result<
    u64,
    Error,
>)
    ensures
        crate::error::agrees(r, rate_of(crate::args::said(*setting), usual, label@, large@)),
{
    let n: u64 = match setting {
        Some(text) => match parse_u64(text.as_str(), label) {
            Ok(n) => n,
            Err(e) => {
                return Err(e);
            },
        },
        None => usual,
    };
    match n.checked_mul(1048576) {
        Some(bytes) => Ok(bytes),
        None => Err(invalid(large)),
    }
}

/// How fast blocks are copied.
pub fn parse_rates(env: &Environment) -> (r: Result<CopyRates, Error>)
    ensures
        crate::error::agrees(r, rates_due(env@)),
{
    let initial: u64 = match parse_rate(
        &env.copy_rate,
        0,
        "ZCVOLUME_COPY_RATE_MIB_S",
        "copy rate overflow",
    ) {
        Ok(n) => n,
        Err(e) => {
            return Err(e);
        },
    };
    let minimum: u64 = match parse_rate(
        &env.min_copy_rate,
        64,
        "ZCVOLUME_MIN_COPY_RATE_MIB_S",
        "minimum copy rate overflow",
    ) {
        Ok(n) => n,
        Err(e) => {
            return Err(e);
        },
    };
    if minimum == 0 {
        return Err(invalid("minimum copy rate must be nonzero"));
    }
    let adaptive: bool = match &env.adaptive {
        Some(text) => !str_eq(text.as_str(), "0"),
        None => initial != 0,
    };
    if adaptive && initial != 0 && minimum > initial {
        return Err(invalid("minimum copy rate cannot exceed the initial adaptive copy rate"));
    }
    Ok(CopyRates { initial, minimum, adaptive })
}

/// How blocks are copied.
pub open spec fn method_due(setting: Option<Seq<char>>) -> Result<CopyMethod, Fault> {
    match setting {
        None => Ok(CopyMethod::CopyFileRange),
        Some(text) => if text == "buffered"@ {
            Ok(CopyMethod::Buffered)
        } else if text == "copy_file_range"@ || text == "cfr"@ {
            Ok(CopyMethod::CopyFileRange)
        } else {
            Err(crate::error::bad_input("invalid ZCVOLUME_COPY_METHOD "@ + text))
        },
    }
}

/// How blocks are copied.
pub fn parse_method(setting: &Option<String>) -> (r: Result<CopyMethod, Error>)
    ensures
        crate::error::agrees(r, method_due(crate::args::said(*setting))),
{
    match setting {
        None => Ok(CopyMethod::CopyFileRange),
        Some(text) => if str_eq(text.as_str(), "buffered") {
            Ok(CopyMethod::Buffered)
        } else if str_eq(text.as_str(), "copy_file_range") || str_eq(text.as_str(), "cfr") {
            Ok(CopyMethod::CopyFileRange)
        } else {
            Err(invalid_input(join2("invalid ZCVOLUME_COPY_METHOD ", text.as_str())))
        },
    }
}

/// What a run is asked to do.
#[derive(Debug)]
pub struct Config {
    pub root: String,
    pub workers: usize,
    pub cpus: Vec<usize>,
    pub baseline_ms: u64,
    pub leaf_partitions: usize,
    pub rates: CopyRates,
    pub copy_method: CopyMethod,
    pub logical_bytes: u64,
    pub partition_bytes: u64,
}

/// What is meant by [`Config`].
pub struct ConfigView {
    pub root: Seq<char>,
    pub workers: usize,
    pub cpus: Seq<usize>,
    pub baseline_ms: u64,
    pub leaf_partitions: usize,
    pub rates: CopyRates,
    pub copy_method: CopyMethod,
    pub logical_bytes: u64,
    pub partition_bytes: u64,
}

impl View for Config {
    type V = ConfigView;

    open spec fn view(&self) -> ConfigView {
        ConfigView {
            root: self.root@,
            workers: self.workers,
            cpus: self.cpus@,
            baseline_ms: self.baseline_ms,
            leaf_partitions: self.leaf_partitions,
            rates: self.rates,
            copy_method: self.copy_method,
            logical_bytes: self.logical_bytes,
            partition_bytes: self.partition_bytes,
        }
    }
}

/// The sizes of a volume and of its partitions, which must be of whole blocks.
pub open spec fn layout_due(size_mib: u64, leaf_partitions: usize) -> Result<(u64, u64), Fault> {
    let logical = size_mib * 1048576;
    let part = logical / (leaf_partitions as int);
    if logical > u64::MAX {
        Err(crate::error::bad_input("SIZE_MIB overflow"@))
    } else if part == 0 || part % 4096 != 0 {
        Err(
            crate::error::bad_input(
                "volume size must divide into 4096-aligned leaf partitions"@,
            ),
        )
    } else {
        Ok((logical as u64, part as u64))
    }
}

/// The sizes of a volume and of its partitions.
pub fn plan_layout(size_mib: u64, leaf_partitions: usize) -> (r: Result<(u64, u64), Error>)
    requires
        leaf_partitions > 0,
    ensures
        crate::error::agrees(r, layout_due(size_mib, leaf_partitions)),
{
    let logical: u64 = match size_mib.checked_mul(1048576) {
        Some(n) => n,
        None => {
            return Err(invalid("SIZE_MIB overflow"));
        },
    };
    let part: u64 = logical / (leaf_partitions as u64);
    if part == 0 || part % 4096 != 0 {
        return Err(invalid("volume size must divide into 4096-aligned leaf partitions"));
    }
    Ok((logical, part))
}

/// What a run is asked to do.
pub open spec fn config_due(args: Seq<Seq<char>>, env: EnvironmentView) -> Result<ConfigView, Fault> {
    if args.len() != 5 {
        Err(
            crate::error::bad_input(
                "usage: zcvolume-live-bench ROOT SIZE_MIB WORKERS CPU_LIST BASELINE_MS"@,
            ),
        )
    } else if !crate::text::begins_with(args[0], "/"@) {
        Err(crate::error::bad_input("benchmark ROOT must be absolute"@))
    } else {
        match number_of(args[1], "SIZE_MIB"@) {
            Err(e) => Err(e),
            Ok(size_mib) => match size_of(args[2], "WORKERS"@) {
                Err(e) => Err(e),
                Ok(workers) => match cpus_of(args[3]) {
                    Err(e) => Err(e),
                    Ok(cpus) => match number_of(args[4], "BASELINE_MS"@) {
                        Err(e) => Err(e),
                        Ok(baseline_ms) => settings_due(
                            args[0],
                            size_mib,
                            workers,
                            cpus,
                            baseline_ms,
                            env,
                        ),
                    },
                },
            },
        }
    }
}

/// What a run is asked to do, once its command line is read.
pub open spec fn settings_due(
    root: Seq<char>,
    size_mib: u64,
    workers: usize,
    cpus: Seq<usize>,
    baseline_ms: u64,
    env: EnvironmentView,
) -> Result<ConfigView, Fault> {
    let partitions = match env.leaf_partitions {
        Some(text) => size_of(text, "ZCVOLUME_LEAF_PARTITIONS"@),
        None => Ok(1usize),
    };
    match partitions {
        Err(e) => Err(e),
        Ok(leaf_partitions) => match rates_due(env) {
            Err(e) => Err(e),
            Ok(rates) => match method_due(env.copy_method) {
                Err(e) => Err(e),
                Ok(copy_method) => if size_mib == 0 || workers == 0 || leaf_partitions == 0
                    || baseline_ms == 0 || cpus.len() != workers {
                    Err(
                        crate::error::bad_input(
                            "size, workers, and baseline duration must be nonzero and CPU_LIST must map every worker"@,
                        ),
                    )
                } else {
                    match layout_due(size_mib, leaf_partitions) {
                        Err(e) => Err(e),
                        Ok((logical_bytes, partition_bytes)) => Ok(
                            ConfigView {
                                root,
                                workers,
                                cpus,
                                baseline_ms,
                                leaf_partitions,
                                rates,
                                copy_method,
                                logical_bytes,
                                partition_bytes,
                            },
                        ),
                    }
                },
            },
        },
    }
}

/// What a run is asked to do.
pub fn parse_config(args: &Vec<String>, env: &Environment) -> (r: Result<Config, Error>)
    ensures
        match r {
            Ok(c) => config_due(crate::text::texts(args@), env@) == Ok::<ConfigView, Fault>(c@),
            Err(e) => config_due(crate::text::texts(args@), env@) == Err::<ConfigView, Fault>(e@),
        },
{
    if args.len() != 5 {
        return Err(
            invalid("usage: zcvolume-live-bench ROOT SIZE_MIB WORKERS CPU_LIST BASELINE_MS"),
        );
    }
    if !starts_with(args[0].as_str(), "/") {
        return Err(invalid("benchmark ROOT must be absolute"));
    }
    let size_mib: u64 = match parse_u64(args[1].as_str(), "SIZE_MIB") {
        Ok(n) => n,
        Err(e) => {
            return Err(e);
        },
    };
    let workers: usize = match parse_usize(args[2].as_str(), "WORKERS") {
        Ok(n) => n,
        Err(e) => {
            return Err(e);
        },
    };
    let cpus: Vec<usize> = match parse_cpu_list(args[3].as_str()) {
        Ok(v) => v,
        Err(e) => {
            return Err(e);
        },
    };
    let baseline_ms: u64 = match parse_u64(args[4].as_str(), "BASELINE_MS") {
        Ok(n) => n,
        Err(e) => {
            return Err(e);
        },
    };
    let leaf_partitions: usize = match &env.leaf_partitions {
        Some(text) => match parse_usize(text.as_str(), "ZCVOLUME_LEAF_PARTITIONS") {
            Ok(n) => n,
            Err(e) => {
                return Err(e);
            },
        },
        None => 1,
    };
    let rates: CopyRates = match parse_rates(env) {
        Ok(rates) => rates,
        Err(e) => {
            return Err(e);
        },
    };
    let copy_method: CopyMethod = match parse_method(&env.copy_method) {
        Ok(method) => method,
        Err(e) => {
            return Err(e);
        },
    };
    if size_mib == 0 || workers == 0 || leaf_partitions == 0 || baseline_ms == 0 || cpus.len()
        != workers {
        return Err(
            invalid(
                "size, workers, and baseline duration must be nonzero and CPU_LIST must map every worker",
            ),
        );
    }
    match plan_layout(size_mib, leaf_partitions) {
        Ok((logical_bytes, partition_bytes)) => Ok(
            Config {
                root: args[0].clone(),
                workers,
                cpus,
                baseline_ms,
                leaf_partitions,
                rates,
                copy_method,
                logical_bytes,
                partition_bytes,
            },
        ),
        Err(e) => Err(e),
    }
}

/// A volume is laid out in equal partitions of whole pages that together are not longer than the volume,
/// and leave less of it than one byte for each of them.
pub proof fn law_partitions_share_the_volume(size_mib: u64, leaf_partitions: usize)
    requires
        leaf_partitions > 0,
    ensures
        layout_due(size_mib, leaf_partitions) matches Ok((logical, part)) ==> {
            &&& logical == size_mib * 1048576
            &&& part > 0 && part % 4096 == 0
            &&& part * leaf_partitions <= logical
            &&& logical - part * leaf_partitions < leaf_partitions
        },
{
    let logical = size_mib * 1048576;
    let n = leaf_partitions as int;
    vstd::arithmetic::div_mod::lemma_fundamental_div_mod(logical, n);
    assert(n * (logical / n) == (logical / n) * n) by (nonlinear_arith);
}

/// A run is what its arguments say, in their order: the place, the size, the workers with a processor each,
/// and the time of the baseline.
pub proof fn law_arguments_are_taken_in_order(args: Seq<Seq<char>>, env: EnvironmentView)
    requires
        config_due(args, env) is Ok,
    ensures
        ({
            let c = config_due(args, env)->Ok_0;
            &&& args.len() == 5
            &&& c.root == args[0]
            &&& crate::text::unsigned_value(args[1], u64::MAX as nat) == Some(
                (c.logical_bytes / 1048576) as nat,
            )
            &&& crate::text::unsigned_value(args[2], usize::MAX as nat) == Some(c.workers as nat)
            &&& c.cpus.len() == c.workers
            &&& cpus_of(args[3]) == Ok::<Seq<usize>, Fault>(c.cpus)
            &&& crate::text::unsigned_value(args[4], u64::MAX as nat) == Some(c.baseline_ms as nat)
            &&& c.workers > 0 && c.leaf_partitions > 0 && c.baseline_ms > 0
            &&& env.leaf_partitions is None ==> c.leaf_partitions == 1
        }),
{
}

/// Copy rates are given in mebibytes, the least rate is not zero, and an adaptive copy does not begin below
/// it.
pub proof fn law_copy_rates_are_sound(env: EnvironmentView, n: u64)
    ensures
        rates_due(env) matches Ok(r) ==> r.minimum > 0 && (r.adaptive && r.initial != 0 ==> r.minimum
            <= r.initial),
        rates_due(env) matches Ok(r) ==> env.copy_rate matches Some(text)
            && crate::text::unsigned_value(text, u64::MAX as nat) == Some(n as nat) ==> r.initial == n
            * 1048576,
        rates_due(env) matches Ok(r) ==> env.copy_rate is None ==> r.initial == 0,
{
}

} // verus!
