use vstd::prelude::*;
use crate::lookup::{distinct, lemma_pos_of, lemma_pos_at, lemma_distinct_remove};
use crate::model::{
    instance_of_param, Instance, InstanceKey, InstanceKeyView, InstanceRegisterParam,
    InstanceView, RegisterParamView,
};
use crate::registry::{
    bump, index_of, inst_keys, refused, snapshot_of, stale_perpetual, upsert,
    ChangeEvent, NamingError, NamingRegistry,
};

verus! {

/// A mutation of perpetual instances, carried by the replicated log.
#[derive(Clone, Debug)]
pub enum NamingRaftReq {
    RegisterInstance { param: InstanceRegisterParam },
    UpdateInstance { param: InstanceRegisterParam },
    RemoveInstance(InstanceKey),
}

/// The abstract value of a log request.
pub enum RaftReqView {
    Register(RegisterParamView),
    Update(RegisterParamView),
    Remove(InstanceKeyView),
}

impl View for NamingRaftReq {
    type V = RaftReqView;

    open spec fn view(&self) -> RaftReqView {
        match self {
            NamingRaftReq::RegisterInstance { param } => RaftReqView::Register(param@),
            NamingRaftReq::UpdateInstance { param } => RaftReqView::Update(param@),
            NamingRaftReq::RemoveInstance(k) => RaftReqView::Remove(k@),
        }
    }
}

/// What applying a log request hands back to its proposer.
#[derive(Clone, Debug)]
pub enum NamingRaftResult {
    InstanceInfo(Instance),
    NoInstance,
}

/// The error, if any, with which a request is refused on the instances `s`.
pub open spec fn apply_error(s: Seq<InstanceView>, req: RaftReqView) -> Option<NamingError> {
    match req {
        RaftReqView::Register(p) => {
            if p.ephemeral || refused(s, instance_of_param(p)) {
                Some(NamingError::InvariantViolation)
            } else {
                None
            }
        },
        RaftReqView::Update(p) => {
            if p.ephemeral {
                Some(NamingError::InvariantViolation)
            } else if index_of(s, instance_of_param(p).key()) < 0 {
                Some(NamingError::NotFound)
            } else if refused(s, instance_of_param(p)) {
                Some(NamingError::InvariantViolation)
            } else {
                None
            }
        },
        RaftReqView::Remove(k) => {
            let i = index_of(s, k);
            if i >= 0 && s[i].ephemeral {
                Some(NamingError::InvariantViolation)
            } else {
                None
            }
        },
    }
}

/// The request changes the instances: it is accepted and not a replay of an
/// older or equal write.
pub open spec fn apply_changes(s: Seq<InstanceView>, req: RaftReqView) -> bool {
    apply_error(s, req) is None && match req {
        RaftReqView::Register(p) => !stale_perpetual(s, instance_of_param(p)),
        RaftReqView::Update(p) => !stale_perpetual(s, instance_of_param(p)),
        RaftReqView::Remove(k) => index_of(s, k) >= 0,
    }
}

/// The instance that a request is about.
pub open spec fn req_key(req: RaftReqView) -> InstanceKeyView {
    match req {
        RaftReqView::Register(p) => instance_of_param(p).key(),
        RaftReqView::Update(p) => instance_of_param(p).key(),
        RaftReqView::Remove(k) => k,
    }
}

/// The service that a request is about.
pub open spec fn req_service(req: RaftReqView) -> (Seq<char>, Seq<char>, Seq<char>) {
    match req {
        RaftReqView::Register(p) => (p.namespace_id, p.group_name, p.service_name),
        RaftReqView::Update(p) => (p.namespace_id, p.group_name, p.service_name),
        RaftReqView::Remove(k) => (k.0, k.1, k.2),
    }
}

/// The perpetual instances after a request: it depends on nothing but the
/// instances before and the request.
pub open spec fn apply_spec(s: Seq<InstanceView>, req: RaftReqView) -> Seq<InstanceView> {
    if !apply_changes(s, req) {
        s
    } else {
        match req {
            RaftReqView::Register(p) => upsert(s, instance_of_param(p)),
            RaftReqView::Update(p) => upsert(s, instance_of_param(p)),
            RaftReqView::Remove(k) => s.remove(index_of(s, k)),
        }
    }
}

/// A log applied in order.
pub open spec fn apply_log(s: Seq<InstanceView>, log: Seq<RaftReqView>) -> Seq<InstanceView>
    decreases log.len(),
{
    if log.len() == 0 {
        s
    } else {
        apply_spec(apply_log(s, log.drop_last()), log.last())
    }
}

impl NamingRegistry {
    /// Applies a committed log request. It reads no clock: the times come
    /// with the request.
    pub fn apply_raft(&mut self, req: NamingRaftReq) -> (r: Result<
        (NamingRaftResult, Option<ChangeEvent>),
        NamingError,
    >)
        requires
            old(self).wf(),
        ensures
            final(self).wf(),
            final(self).is_loading() == old(self).is_loading(),
            final(self).insts() == apply_spec(old(self).insts(), req@),
            apply_changes(old(self).insts(), req@) ==> final(self).svcs() == bump(
                old(self).svcs(),
                req_service(req@),
            ),
            !apply_changes(old(self).insts(), req@) ==> final(self).svcs() == old(self).svcs(),
            match apply_error(old(self).insts(), req@) {
                Some(e) => r == Err::<(NamingRaftResult, Option<ChangeEvent>), NamingError>(e),
                None => r is Ok && (apply_changes(old(self).insts(), req@) <==> r->Ok_0.1 is Some),
            },
            r matches Ok((NamingRaftResult::InstanceInfo(i), _)) ==> i@.key() == req_key(req@) && index_of(
                final(self).insts(),
                i@.key(),
            ) >= 0 && final(self).insts()[index_of(final(self).insts(), i@.key())] == i@,
            (r matches Ok((NamingRaftResult::NoInstance, _))) ==> req@ is Remove,
    {
        match req {
            NamingRaftReq::RegisterInstance { param } => {
                if param.ephemeral {
                    return Err(NamingError::InvariantViolation);
                }
                let inst = param.to_instance();
                let k = inst.key();
                let ev = self.register_instance(inst, 0);
                match ev {
                    Err(e) => Err(e),
                    Ok(ev) => {
                        proof {
                            lemma_pos_of(inst_keys(self.insts()), k@);
                            Self::lemma_upsert_at(old(self).insts(), instance_of_param(param@));
                        }
                        match self.get_instance(&k) {
                            Some(i) => Ok((NamingRaftResult::InstanceInfo(i), ev)),
                            None => Ok((NamingRaftResult::NoInstance, ev)),
                        }
                    },
                }
            },
            NamingRaftReq::UpdateInstance { param } => {
                if param.ephemeral {
                    return Err(NamingError::InvariantViolation);
                }
                let inst = param.to_instance();
                let k = inst.key();
                let ev = self.update_instance(inst, 0);
                match ev {
                    Err(e) => Err(e),
                    Ok(ev) => {
                        proof {
                            lemma_pos_of(inst_keys(self.insts()), k@);
                            Self::lemma_upsert_at(old(self).insts(), instance_of_param(param@));
                        }
                        match self.get_instance(&k) {
                            Some(i) => Ok((NamingRaftResult::InstanceInfo(i), ev)),
                            None => Ok((NamingRaftResult::NoInstance, ev)),
                        }
                    },
                }
            },
            NamingRaftReq::RemoveInstance(k) => {
                match self.get_instance(&k) {
                    Some(i) => {
                        if i.ephemeral {
                            return Err(NamingError::InvariantViolation);
                        }
                    },
                    None => {},
                }
                let ev = self.remove_instance(&k);
                match ev {
                    Err(e) => Err(e),
                    Ok(ev) => Ok((NamingRaftResult::NoInstance, ev)),
                }
            },
        }
    }

    proof fn lemma_upsert_at(s: Seq<InstanceView>, v: InstanceView)
        requires
            distinct(inst_keys(s)),
        ensures
            index_of(upsert(s, v), v.key()) >= 0,
            upsert(s, v)[index_of(upsert(s, v), v.key())] == v,
            inst_keys(upsert(s, v)).len() == upsert(s, v).len(),
    {
        let ks = inst_keys(s);
        lemma_pos_of(ks, v.key());
        let p = index_of(s, v.key());
        let u = upsert(s, v);
        if p < 0 {
            assert(inst_keys(u) =~= ks.push(v.key()));
            lemma_pos_at(inst_keys(u), v.key(), s.len() as int);
        } else {
            assert(inst_keys(u) =~= ks);
        }
    }
}

} // verus!
