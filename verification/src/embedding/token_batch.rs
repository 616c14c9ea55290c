use tokenizers::Tokenizer;
use vstd::prelude::*;

verus! {

/// `tokenizers::Tokenizer`, carried through opaquely.
#[verifier::external_type_specification]
#[verifier::external_body]
pub struct ExTokenizer(tokenizers::Tokenizer);

/// `encodings` is an outcome that `Tokenizer::encode_batch(texts, false)` can give on
/// `tokenizer`: one (ids, attention mask, type ids) per text, in order. This is a
/// relation and not a function: a tokenizer whose model uses BPE dropout or unigram
/// sampling draws random numbers, so one tokenizer and one list of texts may give
/// different encodings.
pub uninterp spec fn tokenizer_may_encode(
    tokenizer: Tokenizer,
    texts: Seq<Seq<char>>,
    encodings: Seq<EncodingView>,
) -> bool;

/// Calls `Tokenizer::encode_batch(inputs, false)` and copies each encoding's ids,
/// attention mask and type ids; an error of the tokenizer becomes `None`.
/// Trusted: on success there is one encoding per input, and the encodings are an
/// outcome of encoding exactly `inputs` with `tokenizer`. What the encodings hold, and
/// when the tokenizer fails, is left unsaid: it depends on the tokenizer's vocabulary
/// and rules, which are opaque, and may depend on random draws.
#[verifier::external_body]
fn encode_texts(tokenizer: &Tokenizer, inputs: Vec<String>) -> (encodings: Option<Vec<TokenEncoding>>)
    ensures
        encodings matches Some(e) ==> e.len() == inputs.len(),
        encodings matches Some(e) ==> tokenizer_may_encode(
            *tokenizer,
            inputs@.map_values(|s: String| s@),
            e@.map_values(|x: TokenEncoding| x@),
        ),
{
    let encodings = tokenizer.encode_batch(inputs, false).ok()?;
    Some(encodings.iter().map(|e| TokenEncoding {
        ids: e.get_ids().to_vec(),
        attention_mask: e.get_attention_mask().to_vec(),
        type_ids: e.get_type_ids().to_vec(),
    }).collect())
}

/// The three parallel sequences that a tokenizer gives for one text.
pub struct TokenEncoding {
    pub ids: Vec<u32>,
    pub attention_mask: Vec<u32>,
    pub type_ids: Vec<u32>,
}

/// The value of a `TokenEncoding`: ids, attention mask, type ids.
pub type EncodingView = (Seq<u32>, Seq<u32>, Seq<u32>);

impl View for TokenEncoding {
    type V = EncodingView;

    open spec fn view(&self) -> EncodingView {
        (self.ids@, self.attention_mask@, self.type_ids@)
    }
}

/// A batch of encodings laid out as three row-major matrices of `batch_size` rows and
/// `padded_token_length` columns, ready to be handed to a model.
pub struct PaddedBatch {
    pub batch_size: usize,
    pub padded_token_length: usize,
    pub ids: Vec<i64>,
    pub mask: Vec<i64>,
    pub type_ids: Vec<i64>,
}

/// The sequence of one encoding that `field` selects: 0 for the ids, 1 for the
/// attention mask, anything else for the type ids.
pub open spec fn field_of(encoding: EncodingView, field: int) -> Seq<u32> {
    if field == 0 {
        encoding.0
    } else if field == 1 {
        encoding.1
    } else {
        encoding.2
    }
}

/// The length of the longest id sequence of the batch, 0 for an empty batch.
pub open spec fn longest_ids(encodings: Seq<EncodingView>) -> nat
    decreases encodings.len(),
{
    if encodings.len() == 0 {
        0
    } else {
        let rest = longest_ids(encodings.drop_last());
        let last = encodings.last().0.len();
        if rest >= last {
            rest
        } else {
            last
        }
    }
}

/// One row of a padded matrix: the values widened to `i64`, followed by as many
/// zeros as the encoding's id sequence falls short of `width`.
pub open spec fn padded_row(encoding: EncodingView, field: int, width: nat) -> Seq<i64> {
    field_of(encoding, field).map_values(|v: u32| v as i64) + Seq::new(
        (width - encoding.0.len()) as nat,
        |j: int| 0i64,
    )
}

/// The rows of one padded matrix, one after the other.
pub open spec fn padded_field(encodings: Seq<EncodingView>, field: int, width: nat) -> Seq<i64>
    decreases encodings.len(),
{
    if encodings.len() == 0 {
        Seq::empty()
    } else {
        padded_field(encodings.drop_last(), field, width) + padded_row(
            encodings.last(),
            field,
            width,
        )
    }
}

/// No id sequence of the batch is longer than `longest_ids`, and, in a batch that is
/// not empty, some id sequence has that length.
pub proof fn lemma_longest_ids(encodings: Seq<EncodingView>)
    ensures
        forall|i: int| 0 <= i < encodings.len() ==> #[trigger] encodings[i].0.len() <= longest_ids(
            encodings,
        ),
        encodings.len() > 0 ==> exists|i: int|
            0 <= i < encodings.len() && #[trigger] encodings[i].0.len() == longest_ids(encodings),
    decreases encodings.len(),
{
    if encodings.len() > 0 {
        let rest = encodings.drop_last();
        lemma_longest_ids(rest);
        assert forall|i: int| 0 <= i < encodings.len() implies #[trigger] encodings[i].0.len()
            <= longest_ids(encodings) by {
            if i < rest.len() {
                assert(encodings[i] == rest[i]);
            }
        }
        if longest_ids(encodings) == encodings.last().0.len() {
            assert(encodings[encodings.len() - 1].0.len() == longest_ids(encodings));
        } else {
            let i = choose|i: int| 0 <= i < rest.len() && #[trigger] rest[i].0.len() == longest_ids(rest);
            assert(encodings[i] == rest[i]);
        }
    }
}

/// Where every encoding's three sequences are equally long, each padded matrix holds
/// `batch_size * width` values, and row `i` sits at offset `i * width`.
pub proof fn law_padded_matrix_shape(encodings: Seq<EncodingView>, field: int, width: nat)
    requires
        forall|i: int|
            0 <= i < encodings.len() ==> #[trigger] field_of(encodings[i], field).len()
                == encodings[i].0.len() && encodings[i].0.len() <= width,
    ensures
        padded_field(encodings, field, width).len() == encodings.len() * width,
        forall|i: int|
            0 <= i < encodings.len() ==> padded_field(encodings, field, width).subrange(
                i * width,
                (i + 1) * width,
            ) == #[trigger] padded_row(encodings[i], field, width),
    decreases encodings.len(),
{
    if encodings.len() > 0 {
        let rest = encodings.drop_last();
        let n = rest.len();
        assert forall|i: int| 0 <= i < rest.len() implies #[trigger] field_of(rest[i], field).len()
            == rest[i].0.len() && rest[i].0.len() <= width by {
            assert(rest[i] == encodings[i]);
        }
        law_padded_matrix_shape(rest, field, width);
        let last = encodings.last();
        assert(field_of(encodings[n as int], field).len() == last.0.len());
        let row = padded_row(last, field, width);
        assert(row.len() == width);
        let whole = padded_field(encodings, field, width);
        let front = padded_field(rest, field, width);
        assert(n * width + width == (n + 1) * width) by (nonlinear_arith);
        assert forall|i: int| 0 <= i < encodings.len() implies whole.subrange(i * width, (i + 1) * width)
            == #[trigger] padded_row(encodings[i], field, width) by {
            if i < n {
                assert(rest[i] == encodings[i]);
                assert((i + 1) * width <= n * width) by (nonlinear_arith)
                    requires
                        i + 1 <= n,
                ;
                assert(0 <= i * width <= (i + 1) * width) by (nonlinear_arith)
                    requires
                        0 <= i,
                ;
                assert(front.len() == n * width);
                assert(whole.subrange(i * width, (i + 1) * width) =~= front.subrange(
                    i * width,
                    (i + 1) * width,
                ));
            } else {
                assert(whole.subrange(i * width, (i + 1) * width) =~= row);
            }
        }
    }
}

/// Where every encoding's three sequences are equally long and no longer than `width`,
/// each padded matrix has `width` columns per encoding, and entry `j` of row `i` is the
/// encoding's own value `j`, widened, while `j` is within the encoding, and 0 after.
pub proof fn law_padded_entries(encodings: Seq<EncodingView>, width: nat)
    requires
        forall|i: int|
            0 <= i < encodings.len() ==> {
                &&& #[trigger] encodings[i].1.len() == encodings[i].0.len()
                &&& encodings[i].2.len() == encodings[i].0.len()
                &&& encodings[i].0.len() <= width
            },
    ensures
        padded_field(encodings, 0, width).len() == encodings.len() * width,
        padded_field(encodings, 1, width).len() == encodings.len() * width,
        padded_field(encodings, 2, width).len() == encodings.len() * width,
        forall|i: int, j: int|
            0 <= i < encodings.len() && 0 <= j < width ==> {
                &&& #[trigger] padded_field(encodings, 0, width)[i * width + j] == if j
                    < encodings[i].0.len() {
                    encodings[i].0[j] as i64
                } else {
                    0i64
                }
                &&& padded_field(encodings, 1, width)[i * width + j] == if j
                    < encodings[i].0.len() {
                    encodings[i].1[j] as i64
                } else {
                    0i64
                }
                &&& padded_field(encodings, 2, width)[i * width + j] == if j
                    < encodings[i].0.len() {
                    encodings[i].2[j] as i64
                } else {
                    0i64
                }
            },
{
    assert forall|f: int, i: int|
        0 <= i < encodings.len() && 0 <= f < 3 implies #[trigger] field_of(encodings[i], f).len()
        == encodings[i].0.len() && encodings[i].0.len() <= width by {
        assert(encodings[i].1.len() == encodings[i].0.len());
    }
    assert forall|i: int| 0 <= i < encodings.len() implies #[trigger] field_of(encodings[i], 0).len()
        == encodings[i].0.len() && encodings[i].0.len() <= width by {
        assert(field_of(encodings[i], 0).len() == encodings[i].0.len());
    }
    assert forall|i: int| 0 <= i < encodings.len() implies #[trigger] field_of(encodings[i], 1).len()
        == encodings[i].0.len() && encodings[i].0.len() <= width by {
        assert(encodings[i].1.len() == encodings[i].0.len());
    }
    assert forall|i: int| 0 <= i < encodings.len() implies #[trigger] field_of(encodings[i], 2).len()
        == encodings[i].0.len() && encodings[i].0.len() <= width by {
        assert(encodings[i].1.len() == encodings[i].0.len());
    }
    law_padded_matrix_shape(encodings, 0, width);
    law_padded_matrix_shape(encodings, 1, width);
    law_padded_matrix_shape(encodings, 2, width);
    assert forall|i: int, j: int| 0 <= i < encodings.len() && 0 <= j < width implies {
        &&& #[trigger] padded_field(encodings, 0, width)[i * width + j] == if j < encodings[i].0.len() {
            encodings[i].0[j] as i64
        } else {
            0i64
        }
        &&& padded_field(encodings, 1, width)[i * width + j] == if j < encodings[i].0.len() {
            encodings[i].1[j] as i64
        } else {
            0i64
        }
        &&& padded_field(encodings, 2, width)[i * width + j] == if j < encodings[i].0.len() {
            encodings[i].2[j] as i64
        } else {
            0i64
        }
    } by {
        assert(i * width + j < (i + 1) * width) by (nonlinear_arith)
            requires
                j < width,
        ;
        assert(0 <= i * width) by (nonlinear_arith)
            requires
                0 <= i,
        ;
        assert((i + 1) * width <= encodings.len() * width) by (nonlinear_arith)
            requires
                i + 1 <= encodings.len(),
        ;
        let e = encodings[i];
        assert(padded_field(encodings, 0, width).subrange(i * width, (i + 1) * width) == padded_row(
            e,
            0,
            width,
        ));
        assert(padded_field(encodings, 1, width).subrange(i * width, (i + 1) * width) == padded_row(
            e,
            1,
            width,
        ));
        assert(padded_field(encodings, 2, width).subrange(i * width, (i + 1) * width) == padded_row(
            e,
            2,
            width,
        ));
        assert forall|f: int| 0 <= f < 3 implies #[trigger] padded_field(encodings, f, width)[i * width
            + j] == padded_row(e, f, width)[j] by {
            let whole = padded_field(encodings, f, width);
            let sub = whole.subrange(i * width, (i + 1) * width);
            assert(sub[j] == whole[i * width + j]);
        }
        assert(padded_field(encodings, 0, width)[i * width + j] == padded_row(e, 0, width)[j]);
        assert(padded_field(encodings, 1, width)[i * width + j] == padded_row(e, 1, width)[j]);
        assert(padded_field(encodings, 2, width)[i * width + j] == padded_row(e, 2, width)[j]);
    }
}

/// Appends the widened values of `values` and `padding` zeros to `out`.
fn push_padded(out: &mut Vec<i64>, values: &Vec<u32>, padding: usize)
    ensures
        final(out)@ == old(out)@ + values@.map_values(|v: u32| v as i64) + Seq::new(
            padding as nat,
            |j: int| 0i64,
        ),
{
    let ghost start = out@;
    let mut i: usize = 0;
    while i < values.len()
        invariant
            i <= values.len(),
            out@ == start + values@.subrange(0, i as int).map_values(|v: u32| v as i64),
        decreases values.len() - i,
    {
        out.push(values[i] as i64);
        i = i + 1;
        assert(values@.subrange(0, i as int).map_values(|v: u32| v as i64) =~= values@.subrange(
            0,
            (i - 1) as int,
        ).map_values(|v: u32| v as i64).push(values@[i - 1] as i64));
    }
    assert(values@.subrange(0, values.len() as int) =~= values@);
    let ghost widened = out@;
    let mut j: usize = 0;
    while j < padding
        invariant
            j <= padding,
            out@ == widened + Seq::new(j as nat, |k: int| 0i64),
        decreases padding - j,
    {
        out.push(0);
        j = j + 1;
        assert(Seq::new(j as nat, |k: int| 0i64) =~= Seq::new((j - 1) as nat, |k: int| 0i64).push(
            0i64,
        ));
    }
}

/// Pads a batch of encodings into three matrices as wide as the longest id sequence:
/// each row holds an encoding's values, widened to `i64`, then zeros for as many
/// places as its id sequence falls short of the width.
pub fn pad_batch(encodings: &Vec<TokenEncoding>) -> (batch: PaddedBatch)
    ensures
        batch.batch_size == encodings.len(),
        batch.padded_token_length == longest_ids(encodings@.map_values(|e: TokenEncoding| e@)),
        batch.ids@ == padded_field(
            encodings@.map_values(|e: TokenEncoding| e@),
            0,
            batch.padded_token_length as nat,
        ),
        batch.mask@ == padded_field(
            encodings@.map_values(|e: TokenEncoding| e@),
            1,
            batch.padded_token_length as nat,
        ),
        batch.type_ids@ == padded_field(
            encodings@.map_values(|e: TokenEncoding| e@),
            2,
            batch.padded_token_length as nat,
        ),
{
    let ghost views = encodings@.map_values(|e: TokenEncoding| e@);
    let batch_size = encodings.len();
    let mut width: usize = 0;
    let mut i: usize = 0;
    while i < batch_size
        invariant
            batch_size == encodings.len(),
            i <= batch_size,
            views == encodings@.map_values(|e: TokenEncoding| e@),
            width == longest_ids(views.subrange(0, i as int)),
        decreases batch_size - i,
    {
        assert(views.subrange(0, i + 1).drop_last() =~= views.subrange(0, i as int));
        if encodings[i].ids.len() > width {
            width = encodings[i].ids.len();
        }
        i = i + 1;
    }
    assert(views.subrange(0, batch_size as int) =~= views);
    proof {
        lemma_longest_ids(views);
    }
    let mut ids: Vec<i64> = Vec::new();
    let mut mask: Vec<i64> = Vec::new();
    let mut type_ids: Vec<i64> = Vec::new();
    let mut r: usize = 0;
    while r < batch_size
        invariant
            batch_size == encodings.len(),
            r <= batch_size,
            views == encodings@.map_values(|e: TokenEncoding| e@),
            width == longest_ids(views),
            forall|k: int| 0 <= k < views.len() ==> #[trigger] views[k].0.len() <= width,
            ids@ == padded_field(views.subrange(0, r as int), 0, width as nat),
            mask@ == padded_field(views.subrange(0, r as int), 1, width as nat),
            type_ids@ == padded_field(views.subrange(0, r as int), 2, width as nat),
        decreases batch_size - r,
    {
        let encoding = &encodings[r];
        assert(views[r as int] == encoding@);
        assert(views[r as int].0.len() <= width);
        let padding_needed = width - encoding.ids.len();
        push_padded(&mut ids, &encoding.ids, padding_needed);
        push_padded(&mut mask, &encoding.attention_mask, padding_needed);
        push_padded(&mut type_ids, &encoding.type_ids, padding_needed);
        assert(views.subrange(0, r + 1).drop_last() =~= views.subrange(0, r as int));
        r = r + 1;
    }
    assert(views.subrange(0, batch_size as int) =~= views);
    PaddedBatch { batch_size, padded_token_length: width, ids, mask, type_ids }
}

/// `batch` is what `pad_batch` makes of `encodings`: one row per encoding, as wide as
/// the longest id sequence, each row its values followed by zeros.
pub open spec fn is_padding_of(batch: PaddedBatch, encodings: Seq<EncodingView>) -> bool {
    &&& batch.batch_size == encodings.len()
    &&& batch.padded_token_length == longest_ids(encodings)
    &&& batch.ids@ == padded_field(encodings, 0, batch.padded_token_length as nat)
    &&& batch.mask@ == padded_field(encodings, 1, batch.padded_token_length as nat)
    &&& batch.type_ids@ == padded_field(encodings, 2, batch.padded_token_length as nat)
}

/// `batch` is the padding of some encodings that `tokenizer` may give for `texts`,
/// one per text.
pub open spec fn pads_encodings_of(batch: PaddedBatch, tokenizer: Tokenizer, texts: Seq<Seq<char>>) -> bool {
    exists|encodings: Seq<EncodingView>|
        #![trigger is_padding_of(batch, encodings)]
        encodings.len() == texts.len() && tokenizer_may_encode(tokenizer, texts, encodings)
            && is_padding_of(batch, encodings)
}

/// A batch that pads encodings whose three sequences are equally long has one row per
/// encoding, is as wide as the longest id sequence (no encoding is longer, and in a
/// batch that is not empty one is that long), and holds in row `i`, column `j`, the
/// encoding's ids, attention mask and type ids respectively while `j` is within the
/// encoding, and 0 after.
pub proof fn law_padding_entries(batch: PaddedBatch, encodings: Seq<EncodingView>)
    requires
        is_padding_of(batch, encodings),
        forall|i: int|
            0 <= i < encodings.len() ==> {
                &&& #[trigger] encodings[i].1.len() == encodings[i].0.len()
                &&& encodings[i].2.len() == encodings[i].0.len()
            },
    ensures
        batch.batch_size == encodings.len(),
        forall|i: int| 0 <= i < encodings.len() ==> #[trigger] encodings[i].0.len()
            <= batch.padded_token_length,
        encodings.len() > 0 ==> exists|i: int|
            0 <= i < encodings.len() && #[trigger] encodings[i].0.len() == batch.padded_token_length,
        batch.ids@.len() == encodings.len() * batch.padded_token_length,
        batch.mask@.len() == encodings.len() * batch.padded_token_length,
        batch.type_ids@.len() == encodings.len() * batch.padded_token_length,
        forall|i: int, j: int|
            0 <= i < encodings.len() && 0 <= j < batch.padded_token_length ==> {
                &&& #[trigger] batch.ids@[i * batch.padded_token_length + j] == if j
                    < encodings[i].0.len() {
                    encodings[i].0[j] as i64
                } else {
                    0i64
                }
                &&& batch.mask@[i * batch.padded_token_length + j] == if j < encodings[i].0.len() {
                    encodings[i].1[j] as i64
                } else {
                    0i64
                }
                &&& batch.type_ids@[i * batch.padded_token_length + j] == if j
                    < encodings[i].0.len() {
                    encodings[i].2[j] as i64
                } else {
                    0i64
                }
            },
{
    lemma_longest_ids(encodings);
    let width = batch.padded_token_length as nat;
    assert forall|i: int| 0 <= i < encodings.len() implies {
        &&& #[trigger] encodings[i].1.len() == encodings[i].0.len()
        &&& encodings[i].2.len() == encodings[i].0.len()
        &&& encodings[i].0.len() <= width
    } by {
        assert(encodings[i].1.len() == encodings[i].0.len());
        assert(encodings[i].2.len() == encodings[i].0.len());
        assert(encodings[i].0.len() <= longest_ids(encodings));
    }
    law_padded_entries(encodings, width);
}

/// Encodes the query followed by the batch of texts and pads the encodings into
/// matrices (see `pad_batch`); `None` where the tokenizer fails.
pub fn encode_query_and_batch(tokenizer: &Tokenizer, batched_inputs: &Vec<String>, query: &str) -> (batch:
    Option<PaddedBatch>)
    ensures
        batch matches Some(b) ==> b.batch_size == batched_inputs.len() + 1,
        batch matches Some(b) ==> pads_encodings_of(
            b,
            *tokenizer,
            seq![query@] + batched_inputs@.map_values(|s: String| s@),
        ),
{
    let inputs = with_query_first(batched_inputs, query);
    let ghost texts = inputs@.map_values(|s: String| s@);
    proof {
        assert(inputs@.map_values(|s: String| s@).len() == inputs.len());
    }
    match encode_texts(tokenizer, inputs) {
        Some(encodings) => {
            let padded = pad_batch(&encodings);
            let ghost views = encodings@.map_values(|e: TokenEncoding| e@);
            assert(views.len() == batched_inputs.len() + 1);
            assert(is_padding_of(padded, views));
            assert(pads_encodings_of(padded, *tokenizer, texts));
            Some(padded)
        },
        None => None,
    }
}

/// The texts to encode: the query first, then the batch in its order.
pub fn with_query_first(batched_inputs: &Vec<String>, query: &str) -> (inputs: Vec<String>)
    ensures
        inputs@.map_values(|s: String| s@) == seq![query@] + batched_inputs@.map_values(
            |s: String| s@,
        ),
{
    let mut inputs: Vec<String> = Vec::new();
    inputs.push(String::from_str(query));
    let mut i: usize = 0;
    while i < batched_inputs.len()
        invariant
            i <= batched_inputs.len(),
            inputs@.map_values(|s: String| s@) == seq![query@] + batched_inputs@.subrange(
                0,
                i as int,
            ).map_values(|s: String| s@),
        decreases batched_inputs.len() - i,
    {
        let item = batched_inputs[i].clone();
        assert(item@ == batched_inputs@[i as int]@);
        let ghost before = inputs@.map_values(|s: String| s@);
        inputs.push(item);
        assert(inputs@.map_values(|s: String| s@) =~= before.push(item@));
        assert(batched_inputs@.subrange(0, i + 1).map_values(|s: String| s@) =~= batched_inputs@.subrange(
            0,
            i as int,
        ).map_values(|s: String| s@).push(item@));
        i = i + 1;
        assert(inputs@.map_values(|s: String| s@) =~= seq![query@] + batched_inputs@.subrange(
            0,
            i as int,
        ).map_values(|s: String| s@));
    }
    assert(batched_inputs@.subrange(0, batched_inputs.len() as int) =~= batched_inputs@);
    inputs
}

} // verus!
