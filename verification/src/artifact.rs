//! Artifact kinds, their tags, and the adverts that announce artifacts.

use vstd::prelude::*;
use vstd::slice::slice_to_vec;
use vstd::utf8::encode_utf8;
use vstd::utf8::decode_utf8;

verus! {

/// Identity of a node of the network.
pub type NodeId = u64;

/// The tag of an artifact kind. Each kind has exactly one tag, and the
/// registry addresses a kind's pool and processor by it.
#[derive(Clone, Copy, Debug, PartialEq, Eq, Structural)]
pub enum ArtifactTag {
    CertificationArtifact,
    ConsensusArtifact,
    DkgArtifact,
    FileTreeSyncArtifact,
    IngressArtifact,
    StateSyncArtifact,
}

/// Number of artifact kinds.
pub const TAG_COUNT: usize = 6;

impl ArtifactTag {
    /// The position of the tag among all tags.
    pub open spec fn spec_index(self) -> nat {
        match self {
            ArtifactTag::CertificationArtifact => 0,
            ArtifactTag::ConsensusArtifact => 1,
            ArtifactTag::DkgArtifact => 2,
            ArtifactTag::FileTreeSyncArtifact => 3,
            ArtifactTag::IngressArtifact => 4,
            ArtifactTag::StateSyncArtifact => 5,
        }
    }

    /// The tag at a position, if the position is below `TAG_COUNT`.
    pub open spec fn spec_from_index(i: nat) -> Option<ArtifactTag> {
        if i == 0 {
            Some(ArtifactTag::CertificationArtifact)
        } else if i == 1 {
            Some(ArtifactTag::ConsensusArtifact)
        } else if i == 2 {
            Some(ArtifactTag::DkgArtifact)
        } else if i == 3 {
            Some(ArtifactTag::FileTreeSyncArtifact)
        } else if i == 4 {
            Some(ArtifactTag::IngressArtifact)
        } else if i == 5 {
            Some(ArtifactTag::StateSyncArtifact)
        } else {
            None
        }
    }

    /// The position of the tag among all tags, below `TAG_COUNT`.
    pub fn index(self) -> (i: usize)
        ensures
            i == self.spec_index(),
            i < TAG_COUNT,
    {
        match self {
            ArtifactTag::CertificationArtifact => 0,
            ArtifactTag::ConsensusArtifact => 1,
            ArtifactTag::DkgArtifact => 2,
            ArtifactTag::FileTreeSyncArtifact => 3,
            ArtifactTag::IngressArtifact => 4,
            ArtifactTag::StateSyncArtifact => 5,
        }
    }

    /// The tag at a position; `None` from `TAG_COUNT` on.
    pub fn from_index(i: usize) -> (tag: Option<ArtifactTag>)
        ensures
            tag == Self::spec_from_index(i as nat),
            tag.is_some() <==> i < TAG_COUNT,
    {
        if i == 0 {
            Some(ArtifactTag::CertificationArtifact)
        } else if i == 1 {
            Some(ArtifactTag::ConsensusArtifact)
        } else if i == 2 {
            Some(ArtifactTag::DkgArtifact)
        } else if i == 3 {
            Some(ArtifactTag::FileTreeSyncArtifact)
        } else if i == 4 {
            Some(ArtifactTag::IngressArtifact)
        } else if i == 5 {
            Some(ArtifactTag::StateSyncArtifact)
        } else {
            None
        }
    }

    /// Tags and the positions below `TAG_COUNT` correspond one to one.
    pub proof fn lemma_index_bijection(tag: ArtifactTag, i: nat)
        ensures
            Self::spec_from_index(tag.spec_index()) == Some(tag),
            tag.spec_index() < TAG_COUNT,
            i < TAG_COUNT ==> Self::spec_from_index(i).is_some()
                && Self::spec_from_index(i).unwrap().spec_index() == i,
            i >= TAG_COUNT ==> Self::spec_from_index(i).is_none(),
    {
    }
}

/// The views of the elements of a sequence, in order.
pub open spec fn views<T: View>(s: Seq<T>) -> Seq<T::V> {
    Seq::new(s.len(), |i: int| s[i]@)
}

/// A content hash of an artifact, as raw bytes.
#[derive(Debug)]
pub struct CryptoHash(pub Vec<u8>);

impl View for CryptoHash {
    type V = Seq<u8>;

    open spec fn view(&self) -> Seq<u8> {
        self.0@
    }
}

impl Clone for CryptoHash {
    fn clone(&self) -> (res: Self)
        ensures
            res@ == self@,
    {
        CryptoHash(slice_to_vec(self.0.as_slice()))
    }
}

/// An advert as a mathematical value.
pub ghost struct AdvertView {
    pub id: Seq<char>,
    pub attribute: Seq<char>,
    pub size: nat,
    pub integrity_hash: Seq<u8>,
}

/// A compact announcement of an artifact: its identifier, an attribute that
/// summarises it, its size and the hash of its content.
#[derive(Debug)]
pub struct Advert {
    pub id: String,
    pub attribute: String,
    pub size: usize,
    pub integrity_hash: CryptoHash,
}

impl View for Advert {
    type V = AdvertView;

    open spec fn view(&self) -> AdvertView {
        AdvertView {
            id: self.id@,
            attribute: self.attribute@,
            size: self.size as nat,
            integrity_hash: self.integrity_hash@,
        }
    }
}

impl Clone for Advert {
    fn clone(&self) -> (res: Self)
        ensures
            res@ == self@,
    {
        Advert {
            id: self.id.clone(),
            attribute: self.attribute.clone(),
            size: self.size,
            integrity_hash: self.integrity_hash.clone(),
        }
    }
}

/// The UTF-8 bytes of a string.
pub fn string_bytes(s: &String) -> (bytes: Vec<u8>)
    ensures
        bytes@ == encode_utf8(s@),
{
    slice_to_vec(s.as_str().as_bytes())
}

/// Strings with the same UTF-8 bytes are the same string.
pub proof fn lemma_encode_utf8_injective(a: Seq<char>, b: Seq<char>)
    requires
        encode_utf8(a) == encode_utf8(b),
    ensures
        a == b,
{
    vstd::utf8::encode_utf8_decode_utf8(a);
    vstd::utf8::encode_utf8_decode_utf8(b);
    assert(decode_utf8(encode_utf8(a)) == decode_utf8(encode_utf8(b)));
}

/// The byte that parts the two strings of a framed pair. It occurs in no
/// UTF-8 encoding.
pub const SEPARATOR: u8 = 0xff;

/// No byte of a UTF-8 encoding is 0xFF.
pub proof fn lemma_encode_utf8_has_no_separator(chars: Seq<char>, i: int)
    requires
        0 <= i < encode_utf8(chars).len(),
    ensures
        encode_utf8(chars)[i] != SEPARATOR,
{
    let bytes = encode_utf8(chars);
    vstd::utf8::encode_utf8_valid_utf8(chars);
    vstd::utf8::is_char_boundary_iff_not_is_continuation_byte(bytes, i);
    vstd::utf8::is_char_boundary_iff_is_leading_byte(bytes, i);
}

/// Two strings as one byte sequence: the bytes of the first, the
/// separator, the bytes of the second.
pub open spec fn framed(first: Seq<char>, second: Seq<char>) -> Seq<u8> {
    encode_utf8(first) + seq![SEPARATOR] + encode_utf8(second)
}

/// Pairs of strings with the same framing are the same pair.
pub proof fn lemma_framed_injective(a: Seq<char>, b: Seq<char>, c: Seq<char>, d: Seq<char>)
    requires
        framed(a, b) == framed(c, d),
    ensures
        a == c,
        b == d,
{
    let x = encode_utf8(a);
    let y = encode_utf8(c);
    let left = framed(a, b);
    let right = framed(c, d);
    if x.len() < y.len() {
        lemma_encode_utf8_has_no_separator(c, x.len() as int);
        assert(left[x.len() as int] == SEPARATOR);
        assert(right[x.len() as int] == y[x.len() as int]);
    }
    if y.len() < x.len() {
        lemma_encode_utf8_has_no_separator(a, y.len() as int);
        assert(right[y.len() as int] == SEPARATOR);
        assert(left[y.len() as int] == x[y.len() as int]);
    }
    let n = x.len() as int;
    assert(x =~= left.subrange(0, n));
    assert(y =~= right.subrange(0, n));
    assert(encode_utf8(b) =~= left.subrange(n + 1, left.len() as int));
    assert(encode_utf8(d) =~= right.subrange(n + 1, right.len() as int));
    lemma_encode_utf8_injective(a, c);
    lemma_encode_utf8_injective(b, d);
}

/// What an artifact kind binds together: its tag, its message type, and the
/// function that derives the advert of a message.
///
/// The advert is a function of the message's view alone, so equal messages
/// have equal adverts. `spec_id` and `spec_content` name the two parts of a
/// message that identify the artifact; the advert carries the first and its
/// integrity hash tells any two contents apart.
pub trait ArtifactKind {
    type Message: View;

    /// The tag of this kind.
    spec fn spec_tag() -> ArtifactTag;

    /// The identifier of a message.
    spec fn spec_id(msg: <Self::Message as View>::V) -> Seq<char>;

    /// The content of a message that the integrity hash covers.
    spec fn spec_content(msg: <Self::Message as View>::V) -> Seq<u8>;

    /// The advert of a message.
    spec fn spec_message_to_advert(msg: <Self::Message as View>::V) -> AdvertView;

    /// The tag of this kind.
    fn tag() -> (tag: ArtifactTag)
        ensures
            tag == Self::spec_tag(),
    ;

    /// Derives the advert that announces `msg`.
    fn message_to_advert(msg: &Self::Message) -> (advert: Advert)
        ensures
            advert@ == Self::spec_message_to_advert(msg@),
    ;

    /// The advert carries the message's identifier, and messages with the
    /// same identifier and content have the same advert.
    proof fn lemma_advert_of_same_artifact(
        a: <Self::Message as View>::V,
        b: <Self::Message as View>::V,
    )
        ensures
            Self::spec_message_to_advert(a).id == Self::spec_id(a),
            Self::spec_id(a) == Self::spec_id(b) && Self::spec_content(a) == Self::spec_content(b)
                ==> Self::spec_message_to_advert(a) == Self::spec_message_to_advert(b),
    ;

    /// Messages whose contents differ have different integrity hashes,
    /// whatever their identifiers and sizes.
    proof fn lemma_integrity_hash_injective(
        a: <Self::Message as View>::V,
        b: <Self::Message as View>::V,
    )
        requires
            Self::spec_content(a) != Self::spec_content(b),
        ensures
            Self::spec_message_to_advert(a).integrity_hash != Self::spec_message_to_advert(
                b,
            ).integrity_hash,
    ;
}

/// A file tree sync artifact as a mathematical value.
pub ghost struct FileTreeSyncArtifactView {
    pub absolute_path: Seq<char>,
    pub id: Seq<char>,
}

/// A file tree on the local disk, announced under its identifier.
#[derive(Debug)]
pub struct FileTreeSyncArtifact {
    pub absolute_path: String,
    pub id: FileTreeSyncId,
}

/// Identifier of a file tree sync artifact.
pub type FileTreeSyncId = String;

/// Attribute of a file tree sync artifact.
pub type FileTreeSyncAttribute = String;

impl View for FileTreeSyncArtifact {
    type V = FileTreeSyncArtifactView;

    open spec fn view(&self) -> FileTreeSyncArtifactView {
        FileTreeSyncArtifactView { absolute_path: self.absolute_path@, id: self.id@ }
    }
}

/// The artifact kind used by the testing framework.
#[derive(Debug, PartialEq, Eq, Structural)]
pub struct TestArtifact;

/// The artifact message used by the testing framework.
pub type TestArtifactMessage = FileTreeSyncArtifact;

/// The artifact identifier used by the testing framework.
pub type TestArtifactId = FileTreeSyncId;

/// The attribute of the artifact used by the testing framework.
pub type TestArtifactAttribute = FileTreeSyncAttribute;

impl ArtifactKind for TestArtifact {
    type Message = TestArtifactMessage;

    open spec fn spec_tag() -> ArtifactTag {
        ArtifactTag::FileTreeSyncArtifact
    }

    open spec fn spec_id(msg: FileTreeSyncArtifactView) -> Seq<char> {
        msg.id
    }

    /// The content of a file tree sync artifact is the path of the tree.
    open spec fn spec_content(msg: FileTreeSyncArtifactView) -> Seq<u8> {
        encode_utf8(msg.absolute_path)
    }

    open spec fn spec_message_to_advert(msg: FileTreeSyncArtifactView) -> AdvertView {
        AdvertView {
            id: msg.id,
            attribute: msg.id,
            size: 0,
            integrity_hash: framed(msg.id, msg.absolute_path),
        }
    }

    fn tag() -> (tag: ArtifactTag) {
        ArtifactTag::FileTreeSyncArtifact
    }

    /// The advert of a test artifact: the identifier is also its attribute,
    /// the size is 0 and the integrity hash holds the identifier and the
    /// path, framed.
    fn message_to_advert(msg: &TestArtifactMessage) -> (advert: Advert) {
        let mut hash = string_bytes(&msg.id);
        hash.push(SEPARATOR);
        let mut path = string_bytes(&msg.absolute_path);
        hash.append(&mut path);
        assert(hash@ =~= framed(msg@.id, msg@.absolute_path));
        Advert {
            attribute: msg.id.clone(),
            size: 0,
            id: msg.id.clone(),
            integrity_hash: CryptoHash(hash),
        }
    }

    proof fn lemma_advert_of_same_artifact(
        a: FileTreeSyncArtifactView,
        b: FileTreeSyncArtifactView,
    ) {
        if a.id == b.id && encode_utf8(a.absolute_path) == encode_utf8(b.absolute_path) {
            lemma_encode_utf8_injective(a.absolute_path, b.absolute_path);
        }
    }

    proof fn lemma_integrity_hash_injective(
        a: FileTreeSyncArtifactView,
        b: FileTreeSyncArtifactView,
    ) {
        if framed(a.id, a.absolute_path) == framed(b.id, b.absolute_path) {
            lemma_framed_injective(a.id, a.absolute_path, b.id, b.absolute_path);
        }
    }
}

/// Two test artifact messages have the same integrity hash exactly if
/// they are the same message, and so it is with their adverts: another
/// path under the same identifier gives another hash.
pub proof fn lemma_test_advert_identifies(
    a: FileTreeSyncArtifactView,
    b: FileTreeSyncArtifactView,
)
    ensures
        a == b <==> TestArtifact::spec_message_to_advert(a) == TestArtifact::spec_message_to_advert(
            b,
        ),
        a == b <==> TestArtifact::spec_message_to_advert(a).integrity_hash
            == TestArtifact::spec_message_to_advert(b).integrity_hash,
        a.id == b.id && a.absolute_path != b.absolute_path
            ==> TestArtifact::spec_message_to_advert(a).integrity_hash
            != TestArtifact::spec_message_to_advert(b).integrity_hash,
{
    if framed(a.id, a.absolute_path) == framed(b.id, b.absolute_path) {
        lemma_framed_injective(a.id, a.absolute_path, b.id, b.absolute_path);
    }
}

} // verus!
