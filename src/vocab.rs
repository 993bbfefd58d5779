//! A vocabulary that turns text into token ids and back: Chinese text is
//! split into words by a dictionary segmenter and each distinct word gets an
//! id of its own; English text goes through a byte-pair tokenizer.
use vstd::prelude::*;
use vstd::string::StringExecFns;

verus! {

/// Token that ends a text.
pub const EOF_TOKEN: &'static str = "<eof>";

/// Token used to pad a sequence.
pub const PADDING_TOKEN: &'static str = "<pad>";

/// Token that stands for any word the vocabulary does not hold.
pub const UNKNOWN_TOKEN: &'static str = "<unk>";

pub open spec fn eof_token() -> Seq<char> {
    seq!['<', 'e', 'o', 'f', '>']
}

pub open spec fn padding_token() -> Seq<char> {
    seq!['<', 'p', 'a', 'd', '>']
}

pub open spec fn unknown_token() -> Seq<char> {
    seq!['<', 'u', 'n', 'k', '>']
}

/// Which tokenizer a vocabulary uses.
#[derive(Debug, Clone, Copy, PartialEq, Eq, Structural)]
pub enum SentenceType {
    English,
    Chinese,
}

/// Why text could not be encoded or decoded.
#[derive(Debug, Clone, Copy, PartialEq, Eq, Structural)]
pub enum VocabError {
    /// The byte-pair tokenizer failed to load or to process the input.
    Tokenizer,
    /// The byte-pair tokenizer produced no token at all.
    EmptyEncoding,
}

/// The characters of each string.
pub open spec fn views(v: Seq<String>) -> Seq<Seq<char>> {
    v.map_values(|s: String| s@)
}

/// `toks` after adding `t`: unchanged if `t` is there, else `t` at the end.
pub open spec fn with_token(toks: Seq<Seq<char>>, t: Seq<char>) -> Seq<Seq<char>> {
    if toks.contains(t) {
        toks
    } else {
        toks.push(t)
    }
}

/// `toks` after adding each of `ts` in turn.
pub open spec fn with_tokens(toks: Seq<Seq<char>>, ts: Seq<Seq<char>>) -> Seq<Seq<char>>
    decreases ts.len(),
{
    if ts.len() == 0 {
        toks
    } else {
        with_token(with_tokens(toks, ts.drop_last()), ts.last())
    }
}

/// Position of `t` in `toks`, which holds it.
pub open spec fn index_in(toks: Seq<Seq<char>>, t: Seq<char>) -> int {
    choose|i: int| 0 <= i < toks.len() && toks[i] == t
}

/// The id of word `t`: its own if the vocabulary holds it, else that of
/// the unknown token.
pub open spec fn id_of(toks: Seq<Seq<char>>, t: Seq<char>) -> int {
    if toks.contains(t) {
        index_in(toks, t)
    } else {
        index_in(toks, unknown_token())
    }
}

/// The text of `ids`: the token of each id in turn, skipping ids the
/// vocabulary does not hold.
pub open spec fn decoded(toks: Seq<Seq<char>>, ids: Seq<usize>) -> Seq<char>
    decreases ids.len(),
{
    if ids.len() == 0 {
        seq![]
    } else {
        decoded(toks, ids.drop_last()) + if ids.last() < toks.len() {
            toks[ids.last() as int]
        } else {
            seq![]
        }
    }
}

/// Where `t` stands in `v`, if anywhere.
fn position(v: &Vec<String>, t: &str) -> (r: Option<usize>)
    ensures
        match r {
            Some(i) => i < v@.len() && v@[i as int]@ == t@,
            None => !views(v@).contains(t@),
        },
{
    let key = t.to_owned();
    let mut i: usize = 0;
    while i < v.len()
        invariant
            key@ == t@,
            i <= v@.len(),
            forall|j: int| 0 <= j < i ==> v@[j]@ != t@,
        decreases v@.len() - i,
    {
        if v[i] == key {
            return Some(i);
        }
        i = i + 1;
    }
    assert(!views(v@).contains(t@)) by {
        if views(v@).contains(t@) {
            let j = choose|j: int| 0 <= j < views(v@).len() && views(v@)[j] == t@;
            assert(v@[j]@ == t@);
        }
    }
    None
}

/// `a` comes no later than `b` in lexicographic order of code points.
pub open spec fn str_le(a: Seq<char>, b: Seq<char>) -> bool
    decreases a.len(),
{
    if a.len() == 0 {
        true
    } else if b.len() == 0 {
        false
    } else if a[0] != b[0] {
        (a[0] as u32) < (b[0] as u32)
    } else {
        str_le(a.skip(1), b.skip(1))
    }
}

/// The strings stand in ascending order.
pub open spec fn sorted_strs(u: Seq<Seq<char>>) -> bool {
    forall|i: int, j: int| 0 <= i < j < u.len() ==> str_le(#[trigger] u[i], #[trigger] u[j])
}

/// Relies on `slice::sort` for `String`, whose order compares the UTF-8
/// bytes lexicographically, which orders code points the same way: the
/// result is a permutation of the input, in ascending order.
#[verifier::external_body]
fn sort_strings(v: &mut Vec<String>)
    ensures
        views(final(v)@).to_multiset() == views(old(v)@).to_multiset(),
        sorted_strs(views(final(v)@)),
{
    v.sort();
}

/// The words of `sentence` as the dictionary segmenter cuts them.
pub uninterp spec fn segmented(sentence: Seq<char>) -> Seq<Seq<char>>;

/// Relies on `jieba_rs::Jieba::new`, which loads the built-in dictionary,
/// and on `Jieba::cut` without the hidden Markov model: the words depend on
/// the sentence alone.
#[verifier::external_body]
fn tokenize_sentence(sentence: &str) -> (r: Vec<String>)
    ensures
        views(r@) == segmented(sentence@),
{
    let jieba = jieba_rs::Jieba::new();
    jieba.cut(sentence, false).into_iter().map(|t| t.word.to_string()).collect()
}

/// The ids the byte-pair tokenizer gives `text` when `special` is the one
/// special token allowed.
pub uninterp spec fn bpe_ids(text: Seq<char>, special: Seq<char>) -> Seq<u32>;

/// The text the byte-pair tokenizer gives back for `ids`.
pub uninterp spec fn bpe_text(ids: Seq<u32>) -> Seq<char>;

/// Relies on `tiktoken_rs::cl100k_base`, which builds the tokenizer from
/// data compiled into the crate, and on `CoreBPE::encode`: when both
/// succeed, the ids depend on the text and the allowed special token alone.
#[verifier::external_body]
fn bpe_encode(text: &str, special: &str) -> (r: Option<Vec<u32>>)
    ensures
        r matches Some(ids) ==> ids@ == bpe_ids(text@, special@),
{
    let bpe = tiktoken_rs::cl100k_base().ok()?;
    let allowed: std::collections::HashSet<&str> = [special].into_iter().collect();
    bpe.encode(text, &allowed).ok().map(|(ids, _)| ids)
}

/// Relies on `tiktoken_rs::cl100k_base` and `CoreBPE::decode`: when both
/// succeed, the text depends on the ids alone.
#[verifier::external_body]
fn bpe_decode(ids: &Vec<u32>) -> (r: Option<String>)
    ensures
        r matches Some(t) ==> t@ == bpe_text(ids@),
{
    tiktoken_rs::cl100k_base().ok()?.decode(ids).ok()
}

/// Each id as a `usize`.
pub open spec fn widened(ids: Seq<u32>) -> Seq<usize> {
    ids.map_values(|i: u32| i as usize)
}

/// Each id as the tokenizer's `u32` (keeping the low 32 bits).
pub open spec fn narrowed(ids: Seq<usize>) -> Seq<u32> {
    ids.map_values(|i: usize| i as u32)
}

/// `m` is the largest of `ids`.
pub open spec fn is_max_of(m: nat, ids: Seq<u32>) -> bool {
    (exists|i: int| 0 <= i < ids.len() && ids[i] == m) && forall|i: int|
        0 <= i < ids.len() ==> ids[i] <= m
}

/// The ids of `words` in a vocabulary holding `toks`.
pub open spec fn ids_of(toks: Seq<Seq<char>>, words: Seq<Seq<char>>) -> Seq<usize> {
    words.map_values(|w: Seq<char>| id_of(toks, w) as usize)
}

/// A vocabulary. For Chinese, id `i` stands for the `i`-th token it holds;
/// for English the ids are those of the byte-pair tokenizer and the
/// vocabulary only records the largest id it has seen.
#[derive(Debug, Clone)]
pub struct Vocabulary {
    id_to_tokens: Vec<String>,
    max_id: usize,
    sentence_type: SentenceType,
}

impl Vocabulary {
    /// The token of each id.
    pub closed spec fn tokens(&self) -> Seq<Seq<char>> {
        views(self.id_to_tokens@)
    }

    pub closed spec fn max_id(&self) -> nat {
        self.max_id as nat
    }

    pub closed spec fn sentence_type(&self) -> SentenceType {
        self.sentence_type
    }

    /// Tokens are distinct and ids are dense.
    pub open spec fn consistent(&self) -> bool {
        self.tokens().no_duplicates() && self.max_id() == self.tokens().len()
    }

    pub open spec fn wf(&self) -> bool {
        match self.sentence_type() {
            SentenceType::Chinese => self.consistent() && self.tokens().contains(unknown_token()),
            SentenceType::English => self.tokens().len() == 0,
        }
    }

    /// A vocabulary for `sentence_type`. A Chinese one holds the unknown,
    /// padding and end tokens (ids 0, 1 and 2), then the distinct words of
    /// `text` in ascending order; an English one holds no tokens.
    pub fn new(text: &str, sentence_type: SentenceType) -> (r: Result<Self, VocabError>)
        ensures
            r is Ok,
            r matches Ok(v) ==> v.wf() && v.sentence_type() == sentence_type && match sentence_type {
                SentenceType::English => v.max_id() == 0,
                SentenceType::Chinese => exists|u: Seq<Seq<char>>|
                    u.to_multiset() == with_tokens(seq![], segmented(text@)).to_multiset()
                        && sorted_strs(u) && v.tokens() == with_tokens(
                        seq![unknown_token(), padding_token(), eof_token()],
                        u,
                    ),
            },
    {
        let mut vocab = Vocabulary { id_to_tokens: Vec::new(), max_id: 0, sentence_type };
        assert(vocab.tokens() =~= seq![]);
        match sentence_type {
            SentenceType::English => {},
            SentenceType::Chinese => {
                proof {
                    reveal_strlit("<unk>");
                    reveal_strlit("<pad>");
                    reveal_strlit("<eof>");
                    assert(UNKNOWN_TOKEN@ =~= unknown_token());
                    assert(PADDING_TOKEN@ =~= padding_token());
                    assert(EOF_TOKEN@ =~= eof_token());
                }
                vocab.add_token(UNKNOWN_TOKEN);
                assert(vocab.tokens() =~= seq![unknown_token()]);
                vocab.add_token(PADDING_TOKEN);
                assert(unknown_token()[1] != padding_token()[1]);
                assert(vocab.tokens() =~= seq![unknown_token(), padding_token()]);
                vocab.add_token(EOF_TOKEN);
                assert(unknown_token()[1] != eof_token()[1]);
                assert(padding_token()[1] != eof_token()[1]);
                assert(vocab.tokens() =~= seq![unknown_token(), padding_token(), eof_token()]);
                let ghost head = vocab.tokens();
                let words = tokenize_sentence(text);
                vocab.add_tokens(words);
                assert(vocab.tokens()[0] == head[0]);
            },
        }
        Ok(vocab)
    }

    /// The ids of `sentence`: for Chinese those of its words (the unknown
    /// token's for words not held); for English those of the byte-pair
    /// tokenizer, which also become the vocabulary's size.
    pub fn encode(&mut self, sentence: &str) -> (r: Result<Vec<usize>, VocabError>)
        requires
            old(self).wf(),
        ensures
            final(self).wf(),
            final(self).sentence_type() == old(self).sentence_type(),
            old(self).sentence_type() == SentenceType::Chinese ==> (*final(self) == *old(self) && (
            r matches Ok(ids) && ids@ == ids_of(old(self).tokens(), segmented(sentence@)))),
            old(self).sentence_type() == SentenceType::English ==> match r {
                Ok(ids) => ids@ == widened(bpe_ids(sentence@, eof_token())) && is_max_of(
                    final(self).max_id(),
                    bpe_ids(sentence@, eof_token()),
                ),
                Err(e) => *final(self) == *old(self) && (e == VocabError::EmptyEncoding
                    ==> bpe_ids(sentence@, eof_token()).len() == 0),
            },
    {
        match self.sentence_type {
            SentenceType::Chinese => Ok(self.encode_chinese(sentence)),
            SentenceType::English => self.encode_english(sentence),
        }
    }

    fn encode_english(&mut self, sentence: &str) -> (r: Result<Vec<usize>, VocabError>)
        requires
            old(self).wf(),
            old(self).sentence_type() == SentenceType::English,
        ensures
            final(self).wf(),
            final(self).sentence_type() == old(self).sentence_type(),
            match r {
                Ok(ids) => ids@ == widened(bpe_ids(sentence@, eof_token())) && is_max_of(
                    final(self).max_id(),
                    bpe_ids(sentence@, eof_token()),
                ),
                Err(e) => *final(self) == *old(self) && (e == VocabError::EmptyEncoding
                    ==> bpe_ids(sentence@, eof_token()).len() == 0),
            },
    {
        proof {
            reveal_strlit("<eof>");
            assert(EOF_TOKEN@ =~= eof_token());
        }
        match bpe_encode(sentence, EOF_TOKEN) {
            Some(ids) => self.accept_ids(&ids),
            None => Err(VocabError::Tokenizer),
        }
    }

    /// Takes the byte-pair tokenizer's `ids` for a text: fails on an empty
    /// list, else records the largest id as the vocabulary's size and
    /// returns the ids as `usize`.
    pub fn accept_ids(&mut self, ids: &Vec<u32>) -> (r: Result<Vec<usize>, VocabError>)
        requires
            old(self).wf(),
            old(self).sentence_type() == SentenceType::English,
        ensures
            final(self).wf(),
            final(self).sentence_type() == old(self).sentence_type(),
            r is Err <==> ids@.len() == 0,
            r matches Err(e) ==> e == VocabError::EmptyEncoding && *final(self) == *old(self),
            r matches Ok(out) ==> out@ == widened(ids@) && is_max_of(final(self).max_id(), ids@),
    {
        if ids.len() == 0 {
            return Err(VocabError::EmptyEncoding);
        }
        let mut best: u32 = ids[0];
        let mut out: Vec<usize> = Vec::with_capacity(ids.len());
        let mut i: usize = 0;
        while i < ids.len()
            invariant
                0 < ids@.len(),
                i <= ids@.len(),
                out@ == widened(ids@.take(i as int)),
                exists|j: int| 0 <= j < ids@.len() && ids@[j] == best,
                forall|j: int| 0 <= j < i ==> ids@[j] <= best,
            decreases ids@.len() - i,
        {
            let ghost before = out@;
            if ids[i] > best {
                best = ids[i];
            }
            out.push(ids[i] as usize);
            assert(out@ =~= widened(ids@.take(i + 1)));
            i = i + 1;
        }
        assert(ids@.take(ids@.len() as int) =~= ids@);
        self.max_id = best as usize;
        Ok(out)
    }

    fn encode_chinese(&self, sentence: &str) -> (r: Vec<usize>)
        requires
            self.wf(),
            self.sentence_type() == SentenceType::Chinese,
        ensures
            r@ == ids_of(self.tokens(), segmented(sentence@)),
    {
        let tokens = tokenize_sentence(sentence);
        let mut token_ids: Vec<usize> = Vec::with_capacity(tokens.len());
        let mut i: usize = 0;
        while i < tokens.len()
            invariant
                self.wf(),
                self.sentence_type() == SentenceType::Chinese,
                i <= tokens@.len(),
                token_ids@ == ids_of(self.tokens(), views(tokens@).take(i as int)),
            decreases tokens@.len() - i,
        {
            let id = self.get_id(tokens[i].as_str());
            token_ids.push(id);
            assert(token_ids@ =~= ids_of(self.tokens(), views(tokens@).take(i + 1)));
            i = i + 1;
        }
        assert(views(tokens@).take(tokens@.len() as int) =~= views(tokens@));
        token_ids
    }

    /// The text of `token_ids`: for Chinese the tokens of the ids joined,
    /// skipping ids the vocabulary does not hold; for English what the
    /// byte-pair tokenizer decodes them to.
    pub fn decode(&self, token_ids: &[usize]) -> (r: Result<String, VocabError>)
        ensures
            self.sentence_type() == SentenceType::Chinese ==> (r matches Ok(t) && t@ == decoded(
                self.tokens(),
                token_ids@,
            )),
            self.sentence_type() == SentenceType::English ==> (r matches Ok(t) ==> t@ == bpe_text(
                narrowed(token_ids@),
            )) && (r matches Err(e) ==> e == VocabError::Tokenizer),
    {
        match self.sentence_type {
            SentenceType::Chinese => Ok(self.decode_chinese(token_ids)),
            SentenceType::English => self.decode_english(token_ids),
        }
    }

    fn decode_english(&self, token_ids: &[usize]) -> (r: Result<String, VocabError>)
        ensures
            r matches Ok(t) ==> t@ == bpe_text(narrowed(token_ids@)),
            r matches Err(e) ==> e == VocabError::Tokenizer,
    {
        let mut ids: Vec<u32> = Vec::with_capacity(token_ids.len());
        let mut i: usize = 0;
        while i < token_ids.len()
            invariant
                i <= token_ids@.len(),
                ids@ == narrowed(token_ids@.take(i as int)),
            decreases token_ids@.len() - i,
        {
            ids.push(token_ids[i] as u32);
            assert(ids@ =~= narrowed(token_ids@.take(i + 1)));
            i = i + 1;
        }
        assert(token_ids@.take(token_ids@.len() as int) =~= token_ids@);
        match bpe_decode(&ids) {
            Some(text) => Ok(text),
            None => Err(VocabError::Tokenizer),
        }
    }

    fn decode_chinese(&self, token_ids: &[usize]) -> (r: String)
        ensures
            r@ == decoded(self.tokens(), token_ids@),
    {
        let mut text = String::new();
        let mut i: usize = 0;
        while i < token_ids.len()
            invariant
                i <= token_ids@.len(),
                text@ == decoded(self.tokens(), token_ids@.take(i as int)),
            decreases token_ids@.len() - i,
        {
            assert(token_ids@.take(i + 1).drop_last() =~= token_ids@.take(i as int));
            if let Some(token) = self.get_token(token_ids[i]) {
                text.append(token);
            } else {
                assert(text@ =~= text@ + Seq::<char>::empty());
            }
            i = i + 1;
        }
        assert(token_ids@.take(token_ids@.len() as int) =~= token_ids@);
        text
    }

    /// The size of the vocabulary: its number of tokens, or for English the
    /// largest id seen so far.
    pub fn len(&self) -> (r: usize)
        ensures
            r == self.max_id(),
    {
        self.max_id
    }

    /// Adds `token` unless it is there already; returns its id.
    fn add_token(&mut self, token: &str) -> (r: usize)
        requires
            old(self).consistent(),
        ensures
            final(self).consistent(),
            final(self).sentence_type() == old(self).sentence_type(),
            final(self).tokens() == with_token(old(self).tokens(), token@),
            r < final(self).tokens().len(),
            final(self).tokens()[r as int] == token@,
    {
        match position(&self.id_to_tokens, token) {
            Some(id) => {
                assert(self.tokens()[id as int] == token@);
                id
            },
            None => {
                let id = self.id_to_tokens.len();
                let ghost before = self.id_to_tokens@;
                self.id_to_tokens.push(token.to_owned());
                assert(views(self.id_to_tokens@) =~= views(before).push(token@));
                self.max_id = self.id_to_tokens.len();
                id
            },
        }
    }

    /// The distinct tokens of `tokens`, in ascending order.
    fn unique_tokens(tokens: Vec<String>) -> (r: Vec<String>)
        ensures
            views(r@).to_multiset() == with_tokens(seq![], views(tokens@)).to_multiset(),
            sorted_strs(views(r@)),
    {
        let mut out: Vec<String> = Vec::new();
        let mut i: usize = 0;
        while i < tokens.len()
            invariant
                i <= tokens@.len(),
                views(out@) == with_tokens(seq![], views(tokens@).take(i as int)),
            decreases tokens@.len() - i,
        {
            let ghost before = out@;
            assert(views(tokens@).take(i + 1).drop_last() =~= views(tokens@).take(i as int));
            match position(&out, tokens[i].as_str()) {
                Some(j) => {
                    assert(views(out@)[j as int] == tokens@[i as int]@);
                },
                None => {
                    out.push(tokens[i].clone());
                    assert(views(out@) =~= views(before).push(tokens@[i as int]@));
                },
            }
            i = i + 1;
        }
        assert(views(tokens@).take(tokens@.len() as int) =~= views(tokens@));
        sort_strings(&mut out);
        out
    }

    /// Adds the distinct tokens of `tokens` in ascending order; the ids of
    /// the tokens already held stay as they are.
    fn add_tokens(&mut self, tokens: Vec<String>)
        requires
            old(self).consistent(),
        ensures
            final(self).consistent(),
            final(self).sentence_type() == old(self).sentence_type(),
            exists|u: Seq<Seq<char>>|
                u.to_multiset() == with_tokens(seq![], views(tokens@)).to_multiset() && sorted_strs(
                    u,
                ) && final(self).tokens() == with_tokens(old(self).tokens(), u),
            old(self).tokens().len() <= final(self).tokens().len(),
            final(self).tokens().take(old(self).tokens().len() as int) == old(self).tokens(),
    {
        let ghost start = self.tokens();
        let u = Self::unique_tokens(tokens);
        let mut i: usize = 0;
        while i < u.len()
            invariant
                i <= u@.len(),
                self.consistent(),
                self.sentence_type() == old(self).sentence_type(),
                start == old(self).tokens(),
                self.tokens() == with_tokens(start, views(u@).take(i as int)),
                start.len() <= self.tokens().len(),
                self.tokens().take(start.len() as int) == start,
            decreases u@.len() - i,
        {
            assert(views(u@).take(i + 1).drop_last() =~= views(u@).take(i as int));
            let ghost before = self.tokens();
            self.add_token(u[i].as_str());
            assert(self.tokens().take(start.len() as int) =~= before.take(start.len() as int));
            i = i + 1;
        }
        assert(views(u@).take(u@.len() as int) =~= views(u@));
    }

    /// The id of word `token`, or that of the unknown token if the
    /// vocabulary does not hold it.
    fn get_id(&self, token: &str) -> (r: usize)
        requires
            self.wf(),
            self.sentence_type() == SentenceType::Chinese,
        ensures
            r == id_of(self.tokens(), token@),
    {
        match position(&self.id_to_tokens, token) {
            Some(id) => {
                assert(self.tokens()[id as int] == token@);
                proof { lemma_index_in(self.tokens(), id as int); }
                id
            },
            None => {
                proof {
                    reveal_strlit("<unk>");
                }
                match position(&self.id_to_tokens, UNKNOWN_TOKEN) {
                    Some(id) => {
                        assert(self.tokens()[id as int] == unknown_token());
                        proof { lemma_index_in(self.tokens(), id as int); }
                        id
                    },
                    None => {
                        assert(UNKNOWN_TOKEN@ =~= unknown_token());
                        vstd::pervasive::unreached()
                    },
                }
            },
        }
    }

    /// The token of `id`, if the vocabulary holds one.
    fn get_token(&self, id: usize) -> (r: Option<&str>)
        ensures
            r is Some <==> id < self.tokens().len(),
            r matches Some(t) ==> t@ == self.tokens()[id as int],
    {
        if id < self.id_to_tokens.len() {
            Some(self.id_to_tokens[id].as_str())
        } else {
            None
        }
    }
}

/// In a sequence without duplicates, `index_in` finds the one position of
/// an element.
proof fn lemma_index_in(toks: Seq<Seq<char>>, i: int)
    requires
        toks.no_duplicates(),
        0 <= i < toks.len(),
    ensures
        index_in(toks, toks[i]) == i,
        toks.contains(toks[i]),
{
    assert(toks[i] == toks[i]);
    let j = index_in(toks, toks[i]);
    assert(0 <= j < toks.len() && toks[j] == toks[i]);
}

} // verus!
