//! Composition: builds the repositories, the ledger service and the
//! dispatcher, and hands the whole to the caller.

use crate::biz::{Bill, BillBiz, TagInfo};
use crate::data::{BillRepoImpl, Infra, TagRepoImpl};
use crate::service::BillSvc;
use std::sync::Arc;
use vstd::prelude::*;

verus! {

/// A fresh application: both repositories empty, on one shared
/// infrastructure with room for as many rows as the machine can count.
pub fn init_app() -> (svc: BillSvc<BillRepoImpl, TagRepoImpl>)
    ensures
        svc.biz.br@ == Seq::<Bill>::empty(),
        svc.biz.tr@ == Seq::<TagInfo>::empty(),
        svc.biz.br.capacity() == usize::MAX,
        svc.biz.tr.capacity() == usize::MAX,
{
    let infra = Arc::new(Infra::new());
    let tag_repo = TagRepoImpl::new(infra.clone());
    let bill_repo = BillRepoImpl::new(infra);
    let biz = BillBiz::new(bill_repo, tag_repo);
    BillSvc::new(biz)
}

} // verus!
