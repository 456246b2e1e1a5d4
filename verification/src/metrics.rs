use vstd::prelude::*;

use crate::audit::AuditBuilder;
use crate::driver::Driver;
use crate::entity::Service;
use crate::error::CoreError;

verus! {

#[verifier::external_type_specification]
#[verifier::external_body]
pub struct ExRegistry(prometheus::Registry);

/// A labelled counter family. The crate's type for it cannot be
/// declared to the verifier (its builder parameter is not nameable
/// outside the crate), so the value is held opaquely.
#[verifier::external_body]
struct CounterVecHandle {
    inner: prometheus::IntCounterVec,
}

/// Relies on prometheus::Registry::new: a fresh, empty registry.
#[verifier::external_body]
fn registry_new() -> prometheus::Registry {
    prometheus::Registry::new()
}

/// Whether prometheus accepts a counter family under this metric
/// name, help text and label name: what the crate's descriptor
/// validation makes of the three texts, and of them alone.
pub uninterp spec fn counter_name_ok(name: Seq<char>, help: Seq<char>, label: Seq<char>) -> bool;

/// Relies on prometheus::IntCounterVec::new: a counter family under
/// the given name and help text, with one label dimension. The crate
/// accepts or refuses on descriptor validation of the three texts
/// alone.
#[verifier::external_body]
fn counter_vec_new(name: &str, help: &str, label: &str) -> (r: Option<CounterVecHandle>)
    ensures
        r is Some <==> counter_name_ok(name@, help@, label@),
{
    match prometheus::IntCounterVec::new(prometheus::Opts::new(name, help), &[label]) {
        Ok(inner) => Some(CounterVecHandle { inner }),
        Err(_) => None,
    }
}

/// Relies on prometheus::Registry::register: the counter family joins
/// the registry's collectors; `false` reports the crate's refusal (a
/// duplicate collector).
#[verifier::external_body]
fn registry_register_counter(r: &prometheus::Registry, c: &CounterVecHandle) -> (ok: bool) {
    r.register(Box::new(c.inner.clone())).is_ok()
}

/// Relies on prometheus::MetricVec::with_label_values and
/// GenericCounter::inc_by: the counter under this label value grows by
/// `v`.
#[verifier::external_body]
fn counter_vec_inc_by(c: &CounterVecHandle, label: &str, v: u64) {
    c.inner.with_label_values(&[label]).inc_by(v);
}

/// Relies on prometheus::Registry::gather and
/// TextEncoder::encode_to_string: the registry's collectors rendered
/// in the text exposition format. `None` reports an encoding failure.
#[verifier::external_body]
fn encode_registry(r: &prometheus::Registry) -> (text: Option<String>) {
    prometheus::TextEncoder::new().encode_to_string(&r.gather()).ok()
}

/// Metrics.
pub struct Metrics;

impl Metrics {
    /// A metric name under this crate's prefix.
    pub fn name(name: &str) -> (r: String)
        ensures
            r@ == "sso_"@ + name@,
    {
        String::from_str("sso_").concat(name)
    }

    /// Resident memory in bytes from the sampler's kilobyte count,
    /// refused with `Metrics` when it leaves the exporter's numeric
    /// range.
    pub fn memory_bytes(kb: u64) -> (r: Result<u64, CoreError>)
        ensures
            r is Ok <==> kb * 1024 <= i64::MAX,
            r matches Ok(b) ==> b == kb * 1024,
            r is Err ==> r == Err::<u64, CoreError>(CoreError::Metrics),
    {
        if kb > (i64::MAX as u64) / 1024 {
            Err(CoreError::Metrics)
        } else {
            Ok(kb * 1024)
        }
    }

    /// The metrics payload: the process section handed in by the
    /// caller, the server's own registry, and the audit counters
    /// derived from the trail under the mask, in that order.
    pub fn read(
        driver: &Driver,
        service_mask: Option<&Service>,
        _audit: &mut AuditBuilder,
        registry: &prometheus::Registry,
        process_text: &str,
    ) -> (r: Result<String, CoreError>)
        requires
            driver.wf(),
        ensures
            r matches Ok(t) ==> exists|e1: Seq<char>, e2: Seq<char>|
                t@ == process_text@ + "\n"@ + e1 + "\n"@ + e2,
            r is Err ==> r == Err::<String, CoreError>(CoreError::Metrics),
            !counter_name_ok("sso_"@ + "audit"@, "Audit log counter"@, "path"@) ==> r == Err::<
                String,
                CoreError,
            >(CoreError::Metrics),
    {
        let mask = match service_mask {
            Some(s) => Some(s.id),
            None => None,
        };
        let pairs = driver.audit_read_metrics(i64::MIN, mask);
        let audit_registry = registry_new();
        let counter_name = Metrics::name("audit");
        let counter = match counter_vec_new(counter_name.as_str(), "Audit log counter", "path") {
            Some(c) => c,
            None => {
                return Err(CoreError::Metrics);
            },
        };
        if !registry_register_counter(&audit_registry, &counter) {
            return Err(CoreError::Metrics);
        }
        let mut i: usize = 0;
        while i < pairs.len()
            decreases pairs@.len() - i,
        {
            counter_vec_inc_by(&counter, pairs[i].0.as_str(), pairs[i].2);
            i += 1;
        }
        let encoded = match encode_registry(registry) {
            Some(t) => t,
            None => {
                return Err(CoreError::Metrics);
            },
        };
        let audit_encoded = match encode_registry(&audit_registry) {
            Some(t) => t,
            None => {
                return Err(CoreError::Metrics);
            },
        };
        let text = process_text.to_owned().concat("\n").concat(encoded.as_str()).concat(
            "\n",
        ).concat(audit_encoded.as_str());
        Ok(text)
    }
}

} // verus!
