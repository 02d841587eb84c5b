//! The certificates of a CA bundle.

use vstd::prelude::*;

verus! {

/// The error of `ureq`.
#[verifier::external_type_specification]
#[verifier::external_body]
pub struct ExUreqError(ureq::Error);

/// The items that `ureq::tls::parse_pem` finds in PEM data, in order: the DER
/// bytes of a certificate, or `None` for an item of another sort. There are none
/// where one of the items cannot be read.
pub uninterp spec fn pem_contents(pem: Seq<u8>) -> Option<Seq<Option<Seq<u8>>>>;

/// The bytes of the items.
pub open spec fn section_bytes(sections: Seq<Option<Vec<u8>>>) -> Seq<Option<Seq<u8>>> {
    Seq::new(
        sections.len(),
        |i: int|
            match sections[i] {
                Some(der) => Some(der@),
                None => None,
            },
    )
}

/// Reads PEM data with `ureq::tls::parse_pem`, up to the first item that cannot
/// be read. Of a certificate `Certificate::der` gives the bytes; a private key,
/// or an item of a sort that `ureq` may add, gives nothing.
#[verifier::external_body]
fn pem_sections(pem: &[u8]) -> (r: Result<Vec<Option<Vec<u8>>>, ureq::Error>)
    ensures
        match r {
            Ok(sections) => pem_contents(pem@) == Some(section_bytes(sections@)),
            Err(_) => pem_contents(pem@) is None,
        },
{
    ureq::tls::parse_pem(pem)
        .map(|item| match item {
            Ok(ureq::tls::PemItem::Certificate(cert)) => Ok(Some(cert.der().to_vec())),
            Ok(_) => Ok(None),
            Err(e) => Err(e),
        })
        .collect()
}

/// Why a CA bundle is of no use.
#[derive(Debug)]
pub enum BundleError {
    /// An item of it cannot be read; what `ureq` says of it.
    Malformed(ureq::Error),
    /// There is no certificate in it.
    NoCertificates,
}

impl BundleError {
    /// What the error says.
    pub open spec fn text(self) -> Seq<char> {
        match self {
            BundleError::Malformed(_) => "failed to parse CA bundle"@,
            BundleError::NoCertificates => "CA bundle did not contain any PEM certificates"@,
        }
    }

    /// The error as a message.
    pub fn message(&self) -> (r: String)
        ensures
            r@ == self.text(),
    {
        match self {
            BundleError::Malformed(_) => "failed to parse CA bundle".to_string(),
            BundleError::NoCertificates => {
                "CA bundle did not contain any PEM certificates".to_string()
            },
        }
    }
}

/// The certificates among items, in order.
pub open spec fn certificates(sections: Seq<Option<Seq<u8>>>) -> Seq<Seq<u8>>
    decreases sections.len(),
{
    if sections.len() == 0 {
        Seq::empty()
    } else {
        match sections.last() {
            Some(der) => certificates(sections.drop_last()).push(der),
            None => certificates(sections.drop_last()),
        }
    }
}

/// The bytes of each certificate.
pub open spec fn der_bytes(certs: Seq<Vec<u8>>) -> Seq<Seq<u8>> {
    Seq::new(certs.len(), |i: int| certs[i]@)
}

/// Picks the certificates out of the items of a bundle. A bundle without any is
/// refused.
pub fn collect_certificates(sections: &Vec<Option<Vec<u8>>>) -> (r: Result<
    Vec<Vec<u8>>,
    BundleError,
>)
    ensures
        match r {
            Ok(certs) => der_bytes(certs@) == certificates(section_bytes(sections@))
                && certs@.len() > 0,
            Err(e) => e is NoCertificates && certificates(section_bytes(sections@)).len() == 0,
        },
{
    let mut certs: Vec<Vec<u8>> = Vec::new();
    let ghost all = section_bytes(sections@);
    let mut i: usize = 0;
    assert(der_bytes(certs@) =~= certificates(all.take(0)));
    while i < sections.len()
        invariant
            i <= sections@.len(),
            all == section_bytes(sections@),
            der_bytes(certs@) == certificates(all.take(i as int)),
        decreases sections@.len() - i,
    {
        let ghost before = certs@;
        assert(all.take(i + 1).drop_last() =~= all.take(i as int));
        assert(all.take(i + 1).last() == all[i as int]);
        match &sections[i] {
            Some(der) => {
                certs.push(der.clone());
                assert(der_bytes(certs@) =~= der_bytes(before).push(der@));
            },
            None => {},
        }
        i = i + 1;
    }
    assert(all.take(i as int) =~= all);
    assert(der_bytes(certs@).len() == certs@.len());
    if certs.len() == 0 {
        Err(BundleError::NoCertificates)
    } else {
        Ok(certs)
    }
}

/// The certificates of a CA bundle in PEM, each in DER.
pub fn parse_ca_bundle(pem: &[u8]) -> (r: Result<Vec<Vec<u8>>, BundleError>)
    ensures
        match pem_contents(pem@) {
            None => r matches Err(BundleError::Malformed(_)),
            Some(sections) => match r {
                Ok(certs) => der_bytes(certs@) == certificates(sections) && certs@.len() > 0,
                Err(e) => e is NoCertificates && certificates(sections).len() == 0,
            },
        },
{
    match pem_sections(pem) {
        Ok(sections) => collect_certificates(&sections),
        Err(e) => Err(BundleError::Malformed(e)),
    }
}

/// The certificates of a bundle come out in the order in which they stand in it,
/// each as it is, and nothing else does: those of two lists, one after the other,
/// are those of the first and then those of the second.
pub proof fn law_certificates_keep_their_order(a: Seq<Option<Seq<u8>>>, b: Seq<Option<Seq<u8>>>)
    ensures
        certificates(a + b) == certificates(a) + certificates(b),
    decreases b.len(),
{
    if b.len() == 0 {
        assert(a + b =~= a);
        assert(certificates(a) + certificates(b) =~= certificates(a));
    } else {
        law_certificates_keep_their_order(a, b.drop_last());
        assert((a + b).drop_last() =~= a + b.drop_last());
        assert((a + b).last() == b.last());
        assert(certificates(a + b) =~= certificates(a) + certificates(b));
    }
}

/// A bundle of one certificate gives that certificate. One of something else, or of
/// nothing, is refused, and so is one that cannot be read.
pub proof fn law_what_a_bundle_gives(
    sections: &Vec<Option<Vec<u8>>>,
    r: Result<Vec<Vec<u8>>, BundleError>,
    pem: &[u8],
    q: Result<Vec<Vec<u8>>, BundleError>,
    m: String,
    i: int,
)
    requires
        call_ensures(collect_certificates, (sections,), r),
        call_ensures(parse_ca_bundle, (pem,), q),
        q matches Err(e) ==> call_ensures(BundleError::message, (&e,), m),
    ensures
        r is Ok <==> exists|k: int| 0 <= k < sections@.len() && (#[trigger] sections@[k]) is Some,
        r matches Ok(certs) ==> certs@.len() <= sections@.len() && (0 <= i < certs@.len()
            ==> exists|k: int|
            0 <= k < sections@.len() && ((#[trigger] sections@[k]) matches Some(der) && der@
                == certs@[i]@)),
        r matches Ok(certs) ==> {
            let all = certificates(
                Seq::new(
                    sections@.len(),
                    |k: int|
                        match sections@[k] {
                            Some(der) => Some(der@),
                            None => None,
                        },
                ),
            );
            certs@.len() == all.len() && (0 <= i < all.len() ==> certs@[i]@ == all[i])
        },
        r matches Ok(certs) ==> sections@.len() == 1 ==> certs@.len() == 1 && certs@[0]@
            == sections@[0]->Some_0@,
        match pem_contents(pem@) {
            None => q is Err && m@ == "failed to parse CA bundle"@,
            Some(items) => {
                &&& q is Err <==> forall|k: int|
                    0 <= k < items.len() ==> (#[trigger] items[k]) is None
                &&& q is Err ==> m@ == "CA bundle did not contain any PEM certificates"@
                &&& q matches Ok(certs) ==> items.len() == 1 ==> certs@.len() == 1 && certs@[0]@
                    == items[0]->Some_0
                &&& q matches Ok(certs) ==> certs@.len() == certificates(items).len() && (0 <= i
                    < certs@.len() ==> certs@[i]@ == certificates(items)[i])
            },
        },
{
    let all = section_bytes(sections@);
    assert(all =~= Seq::new(
        sections@.len(),
        |k: int|
            match sections@[k] {
                Some(der) => Some(der@),
                None => None,
            },
    ));
    lemma_certificates(all, i);
    lemma_one_certificate(all);
    match r {
        Ok(certs) => {
            if 0 <= i < certs@.len() {
                assert(der_bytes(certs@)[i] == certs@[i]@);
                let k = choose|k: int|
                    0 <= k < all.len() && #[trigger] all[k] == Some(certificates(all)[i]);
                assert(sections@[k] is Some);
            }
            if certs@.len() > 0 {
                assert(der_bytes(certs@)[0] == certs@[0]@);
            }
            assert(exists|k: int| 0 <= k < all.len() && (#[trigger] all[k]) is Some);
            let k = choose|k: int| 0 <= k < all.len() && (#[trigger] all[k]) is Some;
            assert(sections@[k] is Some);
        },
        Err(_) => {
            assert forall|k: int| 0 <= k < sections@.len() implies !((#[trigger] sections@[k])
                is Some) by {
                assert(all[k] is None);
            }
        },
    }
    match pem_contents(pem@) {
        None => {},
        Some(items) => {
            lemma_certificates(items, i);
            lemma_one_certificate(items);
            match q {
                Ok(certs) => {
                    assert(der_bytes(certs@)[0] == certs@[0]@);
                    assert(der_bytes(certs@).len() == certs@.len());
                    if 0 <= i < certs@.len() {
                        assert(der_bytes(certs@)[i] == certs@[i]@);
                    }
                },
                Err(_) => {},
            }
        },
    }
}

/// The certificates are the items that are some, and there are none exactly where no
/// item is.
proof fn lemma_certificates(items: Seq<Option<Seq<u8>>>, i: int)
    ensures
        certificates(items).len() <= items.len(),
        certificates(items).len() == 0 <==> forall|k: int|
            0 <= k < items.len() ==> (#[trigger] items[k]) is None,
        0 <= i < certificates(items).len() ==> exists|k: int|
            0 <= k < items.len() && #[trigger] items[k] == Some(certificates(items)[i]),
    decreases items.len(),
{
    if items.len() > 0 {
        let fewer = items.drop_last();
        lemma_certificates(fewer, i);
        assert(items.last() == items[items.len() - 1]);
        if certificates(items).len() == 0 {
            assert forall|k: int| 0 <= k < items.len() implies (#[trigger] items[k]) is None by {
                if k < fewer.len() {
                    assert(fewer[k] is None);
                }
            }
        } else if forall|k: int| 0 <= k < items.len() ==> (#[trigger] items[k]) is None {
            assert forall|k: int| 0 <= k < fewer.len() implies (#[trigger] fewer[k]) is None by {
                assert(items[k] is None);
            }
        }
        if 0 <= i < certificates(fewer).len() {
            let k = choose|k: int|
                0 <= k < fewer.len() && #[trigger] fewer[k] == Some(certificates(fewer)[i]);
            assert(items[k] == Some(certificates(items)[i]));
        } else if i == certificates(fewer).len() && items.last() is Some {
            assert(items[items.len() - 1] == Some(certificates(items)[i]));
        }
    }
}

/// One item that is some is the only certificate.
proof fn lemma_one_certificate(items: Seq<Option<Seq<u8>>>)
    ensures
        items.len() == 1 && items[0] is Some ==> certificates(items) == seq![items[0]->Some_0],
{
    if items.len() == 1 {
        assert(items.drop_last() =~= Seq::<Option<Seq<u8>>>::empty());
        assert(certificates(items.drop_last()) =~= Seq::<Seq<u8>>::empty());
        if items[0] is Some {
            assert(certificates(items) =~= seq![items[0]->Some_0]);
        }
    }
}

} // verus!
