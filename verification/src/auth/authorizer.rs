//! Decisions on requests, by an access control policy.
use crate::auth::matcher::{harmless, is_harmless, is_known_effect, known_effect};
use crate::server::status::{Code, Status, StatusView};
use casbin::{CoreApi, DefaultModel, Enforcer, Model, StringAdapter};
use std::future::Future;
use std::sync::Arc;
use std::task::{Context, Poll, Waker};
use vstd::prelude::*;

verus! {

/// Decides on requests by a policy.
pub struct Authorizer {
    enforcer: Arc<Enforcer>,
}

/// Why there is no authorizer for a policy.
#[derive(Debug, PartialEq, Eq)]
pub enum PolicyError {
    /// The texts are no model and no policy for it, for this reason.
    Refused(String),
    /// The model is not among those that are supported.
    Unsupported,
}

/// A request: who asks, for what, and to do what with it.
#[verifier::ext_equal]
pub struct Access {
    pub subject: Seq<char>,
    pub object: Seq<char>,
    pub action: Seq<char>,
}

/// The model of `casbin`.
#[verifier::external_type_specification]
#[verifier::external_body]
pub struct ExDefaultModel(DefaultModel);

/// The enforcer of `casbin`.
#[verifier::external_type_specification]
#[verifier::external_body]
pub struct ExEnforcer(Enforcer);

/// What `casbin` says is wrong with the text of a model; nothing where it is one.
pub uninterp spec fn model_failure(text: Seq<char>) -> Option<Seq<char>>;

/// The text that a model was read from.
pub uninterp spec fn model_text(model: DefaultModel) -> Seq<char>;

/// The expressions of the matchers in the text of a model, as `casbin` keeps them.
pub uninterp spec fn matchers_in(text: Seq<char>) -> Seq<Seq<char>>;

/// The policy effect in the text of a model, as `casbin` keeps it, if there is one.
pub uninterp spec fn effect_in(text: Seq<char>) -> Option<Seq<char>>;

/// What `casbin` says is wrong with a policy for a model, both given by their texts; nothing where
/// it takes them.
pub uninterp spec fn policy_failure(model: Seq<char>, policy: Seq<char>) -> Option<Seq<char>>;

/// The texts of the model and of the policy that an enforcer was made of.
pub uninterp spec fn sources(enforcer: Enforcer) -> (Seq<char>, Seq<char>);

/// The outcome that an enforcer made of these texts of a model and a policy has for a request:
/// whether it is granted, or nothing where the policy cannot be evaluated on it.
pub uninterp spec fn policy_outcome(
    model: Seq<char>,
    policy: Seq<char>,
    access: Access,
) -> Option<bool>;

/// Texts as mathematical values.
pub open spec fn texts(strings: Seq<String>) -> Seq<Seq<char>> {
    Seq::new(strings.len(), |i: int| strings[i]@)
}

/// Whether the model in this text is supported: its effect is known, and its matchers are harmless.
/// A policy for it can be evaluated on every request.
pub open spec fn is_supported(model: Seq<char>) -> bool {
    &&& effect_in(model) matches Some(effect) ==> is_known_effect(effect)
    &&& forall|i: int|
        0 <= i < matchers_in(model).len() ==> is_harmless(#[trigger] matchers_in(model)[i])
}

/// `DefaultModel::from_str` of `casbin`: the model in a text, or the text of an error. It waits for
/// nothing, so it is done the first time it is asked. Whether there is a model, and the text of the
/// error, depend on the text alone.
#[verifier::external_body]
fn parse_model(text: &str) -> (result: Result<DefaultModel, String>)
    ensures
        match result {
            Ok(model) => model_failure(text@) is None && model_text(model) == text@,
            Err(reason) => model_failure(text@) == Some(reason@),
        },
{
    let mut parse = Box::pin(DefaultModel::from_str(text));
    match parse.as_mut().poll(&mut Context::from_waker(Waker::noop())) {
        Poll::Ready(result) => result.map_err(|error| error.to_string()),
        Poll::Pending => Err(String::new()),
    }
}

/// `Model::get_model` of `casbin`: the expressions in the section of the matchers.
#[verifier::external_body]
fn matchers(model: &DefaultModel) -> (matchers: Vec<String>)
    ensures
        texts(matchers@) == matchers_in(model_text(*model)),
{
    let section = model.get_model().get("m");
    section.map(|m| m.values().map(|a| a.value.clone()).collect()).unwrap_or_default()
}

/// `Model::get_model` of `casbin`: the policy effect, if there is one.
#[verifier::external_body]
fn effect(model: &DefaultModel) -> (effect: Option<String>)
    ensures
        match effect {
            Some(effect) => effect_in(model_text(*model)) == Some(effect@),
            None => effect_in(model_text(*model)) is None,
        },
{
    model.get_model().get("e").and_then(|e| e.get("e")).map(|a| a.value.clone())
}

/// `Enforcer::new` of `casbin` on a model and on the rules in a text: an enforcer with the default
/// effector, the default functions and the default roles, or the text of an error. It waits for
/// nothing, so it is done the first time it is asked. Whether there is an enforcer, and the text of
/// the error, depend on the two texts alone. It puts the matchers into the form in which they are
/// evaluated without a limit on their depth, so they are harmless.
#[verifier::external_body]
fn make_enforcer(model: DefaultModel, policy: &str) -> (result: Result<Enforcer, String>)
    requires
        is_supported(model_text(model)),
    ensures
        match result {
            Ok(enforcer) => policy_failure(model_text(model), policy@) is None && sources(
                enforcer,
            ) == (model_text(model), policy@),
            Err(reason) => policy_failure(model_text(model), policy@) == Some(reason@),
        },
{
    let mut make = Enforcer::new(model, StringAdapter::new(policy));
    match make.as_mut().poll(&mut Context::from_waker(Waker::noop())) {
        Poll::Ready(result) => result.map_err(|error| error.to_string()),
        Poll::Pending => Err(String::new()),
    }
}

/// `Enforcer::enforce` of `casbin`, on an enforcer that `make_enforcer` made: whether the request
/// is granted, or nothing where there is an error. It panics on effects that are not known, on
/// arithmetic that overflows, and in some functions that matchers can call, and it evaluates
/// expressions without a limit on their depth; so the effect is known, and the matchers are
/// harmless. The outcome depends on the texts of the model and of the policy and
/// on the request alone.
#[verifier::external_body]
fn enforce(
    enforcer: &Enforcer,
    subject: String,
    object: String,
    action: String,
) -> (outcome: Option<bool>)
    requires
        is_supported(sources(*enforcer).0),
    ensures
        outcome == policy_outcome(
            sources(*enforcer).0,
            sources(*enforcer).1,
            Access { subject: subject@, object: object@, action: action@ },
        ),
{
    enforcer.enforce((subject, object, action)).ok()
}

/// Whether a model is supported.
fn supports(model: &DefaultModel) -> (yes: bool)
    ensures
        yes == is_supported(model_text(*model)),
{
    match effect(model) {
        Some(effect) => {
            if !known_effect(&effect) {
                return false;
            }
        },
        None => {},
    }
    let matchers = matchers(model);
    let ghost all = matchers_in(model_text(*model));
    let n: usize = matchers.len();
    let mut i: usize = 0;
    while i < n
        invariant
            i <= n == matchers@.len(),
            all == matchers_in(model_text(*model)),
            all == texts(matchers@),
            forall|j: int| 0 <= j < i ==> is_harmless(#[trigger] all[j]),
        decreases n - i,
    {
        assert(all[i as int] == matchers@[i as int]@);
        if !harmless(&matchers[i]) {
            return false;
        }
        i += 1;
    }
    true
}

/// The decision for an outcome of the policy.
pub open spec fn decision(outcome: Option<bool>) -> Result<(), StatusView> {
    match outcome {
        None => Err(StatusView { code: Code::Unknown, message: "unknown enforcer error"@ }),
        Some(true) => Ok(()),
        Some(false) => Err(
            StatusView { code: Code::PermissionDenied, message: "permission denied"@ },
        ),
    }
}

/// What a call that decides gave.
pub open spec fn decided(result: Result<(), Status>) -> Result<(), StatusView> {
    match result {
        Ok(()) => Ok(()),
        Err(status) => Err(status@),
    }
}

/// The decision for an outcome of the policy: an outcome that grants is no error.
pub fn decide(outcome: Option<bool>) -> (result: Result<(), Status>)
    ensures
        decided(result) == decision(outcome),
{
    match outcome {
        None => Err(Status::new(Code::Unknown, "unknown enforcer error")),
        Some(granted) => {
            if !granted {
                return Err(Status::new(Code::PermissionDenied, "permission denied"));
            }
            Ok(())
        },
    }
}

impl Clone for Authorizer {
    fn clone(&self) -> (copy: Authorizer)
        ensures
            copy == *self,
    {
        proof {
            use_type_invariant(self);
        }
        Authorizer { enforcer: self.enforcer.clone() }
    }
}

impl Authorizer {
    #[verifier::type_invariant]
    spec fn can_decide(&self) -> bool {
        is_supported(sources(*self.enforcer).0)
    }

    /// The text of the model.
    pub closed spec fn model(&self) -> Seq<char> {
        sources(*self.enforcer).0
    }

    /// The text of the policy.
    pub closed spec fn policy(&self) -> Seq<char> {
        sources(*self.enforcer).1
    }

    /// The outcome of the policy for a request.
    pub open spec fn outcome(&self, access: Access) -> Option<bool> {
        policy_outcome(self.model(), self.policy(), access)
    }

    /// An authorizer with a model and a policy for it, given by their texts. The model is one of
    /// those that are supported.
    pub fn new(model: &str, policy: &str) -> (result: Result<Authorizer, PolicyError>)
        ensures
            match result {
                Ok(authorizer) => {
                    &&& model_failure(model@) is None
                    &&& is_supported(model@)
                    &&& policy_failure(model@, policy@) is None
                    &&& authorizer.model() == model@
                    &&& authorizer.policy() == policy@
                },
                Err(PolicyError::Unsupported) => {
                    &&& model_failure(model@) is None
                    &&& !is_supported(model@)
                },
                Err(PolicyError::Refused(reason)) => {
                    ||| model_failure(model@) == Some(reason@)
                    ||| {
                        &&& model_failure(model@) is None
                        &&& is_supported(model@)
                        &&& policy_failure(model@, policy@) == Some(reason@)
                    }
                },
            },
    {
        let model = match parse_model(model) {
            Ok(model) => model,
            Err(reason) => {
                return Err(PolicyError::Refused(reason));
            },
        };
        if !supports(&model) {
            return Err(PolicyError::Unsupported);
        }
        match make_enforcer(model, policy) {
            Ok(enforcer) => Ok(Authorizer { enforcer: Arc::new(enforcer) }),
            Err(reason) => Err(PolicyError::Refused(reason)),
        }
    }

    /// Decides whether `subject` may do `action` with `object`.
    pub fn authorize(&self, subject: String, object: String, action: String) -> (result: Result<
        (),
        Status,
    >)
        ensures
            decided(result) == decision(
                self.outcome(Access { subject: subject@, object: object@, action: action@ }),
            ),
    {
        proof {
            use_type_invariant(self);
        }
        decide(enforce(&self.enforcer, subject, object, action))
    }
}

/// A request is granted exactly where the policy says so. Else it is denied, or the failure of the
/// policy is told.
pub proof fn only_a_grant_is_granted(outcome: Option<bool>)
    ensures
        decision(outcome) is Ok <==> outcome == Some(true),
        decision(outcome) matches Err(status) ==> {
            &&& outcome == Some(false) ==> status.code == Code::PermissionDenied && status.message
                == "permission denied"@
            &&& outcome is None ==> status.code == Code::Unknown && status.message
                == "unknown enforcer error"@
        },
{
}

/// What was decided is told as it is.
pub proof fn decision_is_told_as_it_is(result: Result<(), Status>)
    ensures
        result is Ok <==> decided(result) is Ok,
        result matches Err(status) ==> (decided(result) matches Err(told) && told.code
            == status.code && told.message == status.message@),
{
}

/// The policy is asked for the request with its own subject, object and action.
pub proof fn policy_is_asked_for_the_request(authorizer: Authorizer, access: Access)
    ensures
        authorizer.outcome(access) == policy_outcome(
            authorizer.model(),
            authorizer.policy(),
            Access { subject: access.subject, object: access.object, action: access.action },
        ),
{
}

/// A model is supported exactly where all of its matchers are harmless and its effect, if it has
/// one, is one of the four.
pub proof fn supported_models(model: Seq<char>)
    ensures
        is_supported(model) <==> {
            &&& forall|i: int|
                0 <= i < matchers_in(model).len() ==> is_harmless(#[trigger] matchers_in(model)[i])
            &&& effect_in(model) matches Some(effect) ==> {
                ||| effect == "some(where (p_eft == allow))"@
                ||| effect == "!some(where (p_eft == deny))"@
                ||| effect == "some(where (p_eft == allow)) && !some(where (p_eft == deny))"@
                ||| effect == "priority(p_eft) || deny"@
            }
        },
{
}

} // verus!
