//! What a configuration decides, whatever else it holds.
use vstd::prelude::*;
use vstd::string::*;

use crate::config::backup::{
    bucket_and_prefix, credentials, first_slash, storage_of, BackupSection, CredentialView,
    StorageView,
};
use crate::config::emitter::{
    archive_fault, default_conn, default_knobs, document_fault, namespace_rules, nonempty,
    patched_conn, BootFacts, ChPatch, ConfigDocument, Knobs, MemoryPatch, NamespacePatch,
    StreamPatch,
};
use crate::config::fragments::{extension, fragments_in, is_fragment, last_dot, not_after};
use crate::config::settings::{inserters_default, resident_default, BootstrapMode};
use crate::config::tables::{
    block_fault, block_rel, column_fault, columns_fault, kind_of, named, pinned, section_of,
    with_block, ColumnPatch, SectionView, TableBlock,
};
use crate::conn::ConnView;
use crate::ddl::config::namespace_in;
use crate::mapping::{MatchKind, NamespaceMapping};
use crate::text::{lowered, trimmed_end, trimmed_start, without_end_slashes};

verus! {

/// Every key that sizes or times the work sets its own knob and no other; a key
/// that is not set leaves its knob alone.
pub proof fn keys_set_their_own_knob(k: Knobs, ch: ChPatch, m: MemoryPatch, st: StreamPatch)
    ensures
        ({
            let p = k.patched(ch, m, st);
            &&& (ch.row_budget matches Some(n) ==> p.row_budget == n)
            &&& (ch.row_budget is None ==> p.row_budget == k.row_budget)
            &&& (ch.byte_budget matches Some(n) ==> p.byte_budget == n)
            &&& (ch.byte_budget is None ==> p.byte_budget == k.byte_budget)
            &&& (ch.flush_timeout_ms matches Some(n) ==> p.flush_timeout == n)
            &&& (ch.flush_timeout_ms is None ==> p.flush_timeout == k.flush_timeout)
            &&& (ch.retry_max_attempts matches Some(n) ==> p.retry.max_attempts == n)
            &&& (ch.retry_max_attempts is None ==> p.retry.max_attempts == k.retry.max_attempts)
            &&& (ch.retry_initial_backoff_ms matches Some(n) ==> p.retry.initial_backoff == n)
            &&& (ch.retry_initial_backoff_ms is None ==> p.retry.initial_backoff
                == k.retry.initial_backoff)
            &&& (ch.retry_max_backoff_ms matches Some(n) ==> p.retry.max_backoff == n)
            &&& (ch.retry_max_backoff_ms is None ==> p.retry.max_backoff == k.retry.max_backoff)
            &&& (ch.drain_batch_rows matches Some(n) ==> p.drain_batch_rows == n)
            &&& (ch.drain_batch_rows is None ==> p.drain_batch_rows == k.drain_batch_rows)
            &&& (ch.drain_batch_bytes matches Some(n) ==> p.drain_batch_bytes == n)
            &&& (ch.drain_batch_bytes is None ==> p.drain_batch_bytes == k.drain_batch_bytes)
            &&& (ch.plan_disk_max matches Some(n) ==> p.plan_disk_max == n)
            &&& (ch.plan_disk_max is None ==> p.plan_disk_max == k.plan_disk_max)
            &&& (ch.decoder_pool_size matches Some(n) ==> p.decoder_pool_size == n)
            &&& (ch.decoder_pool_size is None ==> p.decoder_pool_size == k.decoder_pool_size)
            &&& (ch.inserter_pool_size matches Some(n) ==> p.inserter_pool_size == n)
            &&& (ch.inserter_pool_size is None ==> p.inserter_pool_size == k.inserter_pool_size)
            &&& (ch.decoder_batch_size matches Some(n) ==> p.decoder_batch_size == n)
            &&& (ch.decoder_batch_size is None ==> p.decoder_batch_size == k.decoder_batch_size)
            &&& (ch.decoder_queue_capacity matches Some(n) ==> p.decoder_queue_capacity == n)
            &&& (ch.decoder_queue_capacity is None ==> p.decoder_queue_capacity
                == k.decoder_queue_capacity)
            &&& (m.resident_payload_max matches Some(n) ==> p.resident_payload_max == n)
            &&& (m.resident_payload_max is None ==> p.resident_payload_max
                == k.resident_payload_max)
            &&& (m.inline_value_max matches Some(n) ==> p.inline_value_max == n)
            &&& (m.inline_value_max is None ==> p.inline_value_max == k.inline_value_max)
            &&& (m.value_reserve matches Some(n) ==> p.value_reserve == n)
            &&& (m.value_reserve is None ==> p.value_reserve == k.value_reserve)
            &&& (st.pending_max_boundaries_per_xact matches Some(n)
                ==> p.pending_capture.max_boundaries_per_xact == n)
            &&& (st.pending_max_boundaries_per_xact is None
                ==> p.pending_capture.max_boundaries_per_xact
                == k.pending_capture.max_boundaries_per_xact)
            &&& (st.pending_max_hold_ms matches Some(n) ==> p.pending_capture.max_hold_per_xact
                == n)
            &&& (st.pending_max_hold_ms is None ==> p.pending_capture.max_hold_per_xact
                == k.pending_capture.max_hold_per_xact)
            &&& p.decode_chunk_rows == k.decode_chunk_rows
            &&& p.insert_timeout == k.insert_timeout
            &&& p.idle_reconnect == k.idle_reconnect
        }),
{
}

/// So does every key that switches something.
pub proof fn switches_set_their_own_knob(k: Knobs, ch: ChPatch, m: MemoryPatch, st: StreamPatch)
    ensures
        ({
            let p = k.patched(ch, m, st);
            &&& (ch.compression matches Some(c) ==> p.compression == c)
            &&& (ch.compression is None ==> p.compression == k.compression)
            &&& (ch.drop_table_strategy matches Some(s) ==> p.drop_table_strategy == s)
            &&& (ch.drop_table_strategy is None ==> p.drop_table_strategy == k.drop_table_strategy)
            &&& (ch.soft_delete matches Some(b) ==> p.soft_delete == b)
            &&& (ch.soft_delete is None ==> p.soft_delete == k.soft_delete)
            &&& (m.inline_value_overflow matches Some(o) ==> p.inline_value_overflow == o)
            &&& (m.inline_value_overflow is None ==> p.inline_value_overflow
                == k.inline_value_overflow)
            &&& (st.paused matches Some(b) ==> p.paused == b)
            &&& (st.paused is None ==> p.paused == k.paused)
            &&& (st.replicate_all matches Some(b) ==> p.replicate_all == b)
            &&& (st.replicate_all is None ==> p.replicate_all == k.replicate_all)
        }),
{
}

/// Every key of the connection sets its own part of it.
pub proof fn connection_keys_set_their_own_part(base: ConnView, ch: ChPatch)
    ensures
        ch.host matches Some(s) ==> patched_conn(base, ch).host == s@,
        ch.host is None ==> patched_conn(base, ch).host == base.host,
        ch.port matches Some(n) ==> patched_conn(base, ch).port == n,
        ch.port is None ==> patched_conn(base, ch).port == base.port,
        ch.database matches Some(s) ==> patched_conn(base, ch).database == s@,
        ch.database is None ==> patched_conn(base, ch).database == base.database,
        ch.user matches Some(s) ==> patched_conn(base, ch).user == s@,
        ch.user is None ==> patched_conn(base, ch).user == base.user,
        ch.password matches Some(s) ==> patched_conn(base, ch).password == s@,
        ch.password is None ==> patched_conn(base, ch).password == base.password,
        ch.secure matches Some(b) ==> patched_conn(base, ch).secure == b,
        ch.secure is None ==> patched_conn(base, ch).secure == base.secure,
{
}

/// Without configuration the stream runs, replicates everything and drops
/// deleted rows; an insert has half a minute, and so has an idle connection.
pub proof fn defaults_replicate_everything(facts: BootFacts)
    ensures
        ({
            let k = default_knobs(facts);
            &&& k.replicate_all && !k.paused && !k.soft_delete
            &&& k.insert_timeout == 30 * 1000 && k.idle_reconnect == 30 * 1000
            &&& k.flush_timeout == 1000
            &&& k.retry.max_attempts == 5 && k.retry.initial_backoff == 250 && k.retry.max_backoff
                == 10 * 1000
            &&& k.compression == facts.compression
            &&& k.drop_table_strategy == facts.drop_table_strategy
            &&& k.pending_capture == facts.pending_capture
            &&& k.row_budget == 4 * 1024 * 1024 && k.byte_budget == 256 * 1024 * 1024
            &&& k.decoder_pool_size == 3
        }),
{
}

/// A pool has half of the host's memory, and half a gibibyte at least.
pub proof fn pools_take_half_of_the_memory(host: usize, more: usize)
    ensures
        resident_default(None) == 512 * 1024 * 1024,
        resident_default(Some(host)) >= 512 * 1024 * 1024,
        host >= 1024 * 1024 * 1024 ==> resident_default(Some(host)) == host / 2,
        host < 1024 * 1024 * 1024 ==> resident_default(Some(host)) == 512 * 1024 * 1024,
        host <= more ==> resident_default(Some(host)) <= resident_default(Some(more)),
{
}

/// There is an inserter for each processor, three at least and no more than the
/// bridge takes.
pub proof fn inserters_follow_the_processors(vcpus: usize, most: usize)
    requires
        most >= 3,
    ensures
        inserters_default(None, most) == 3,
        3 <= inserters_default(Some(vcpus), most) <= most,
        3 <= vcpus <= most ==> inserters_default(Some(vcpus), most) == vcpus,
        vcpus > most ==> inserters_default(Some(vcpus), most) == most,
        vcpus < 3 ==> inserters_default(Some(vcpus), most) == 3,
{
}

/// A namespace creates tables only where it says so; the rest of what it says
/// is taken as it is.
pub proof fn namespaces_create_where_they_say_so(list: Seq<(String, NamespacePatch)>, i: int)
    requires
        0 <= i < list.len(),
    ensures
        namespace_rules(list).len() == list.len(),
        ({
            let (name, p) = list[i];
            let (kept, r) = namespace_rules(list)[i];
            &&& kept == name
            &&& r.auto_create <==> p.auto_create == Some(true)
            &&& r.target_database == p.target_database
            &&& r.drop_table_strategy == p.drop_table_strategy
            &&& r.initial_load == p.initial_load
        }),
{
}

/// An empty name is none.
pub proof fn empty_names_are_none(s: Option<String>)
    ensures
        nonempty(s) is Some <==> s is Some && s->0@.len() > 0,
        nonempty(s) is Some ==> nonempty(s) == s,
{
}

/// Both halves of a key are used, or neither and the host is asked for it; one
/// alone is refused.
pub proof fn half_a_key_is_refused(bk: BackupSection, imds_fault: Option<Seq<char>>)
    ensures
        bk.access_key is Some && bk.secret_key is Some ==> credentials(bk, imds_fault) is Ok
            && credentials(bk, imds_fault)->Ok_0 is Static,
        bk.access_key is None && bk.secret_key is None && imds_fault is None ==> credentials(
            bk,
            imds_fault,
        ) == Ok::<_, Seq<char>>(CredentialView::Imds),
        bk.access_key is None && bk.secret_key is None && imds_fault is Some ==> credentials(
            bk,
            imds_fault,
        ) is Err,
        bk.access_key is Some != bk.secret_key is Some ==> credentials(bk, imds_fault) is Err,
        credentials(bk, imds_fault) matches Ok(CredentialView::Static(a, s, t)) ==> a
            == bk.access_key->0@ && s == bk.secret_key->0@ && (bk.session_token is None <==> t
            is None) && (t is Some ==> t->0 == bk.session_token->0@),
{
}

proof fn lemma_first_slash(bucket: Seq<char>, rest: Seq<char>)
    requires
        !bucket.contains('/'),
        rest.len() == 0 || rest[0] == '/',
    ensures
        first_slash(bucket + rest) == bucket.len(),
    decreases bucket.len(),
{
    let s = bucket + rest;
    if bucket.len() > 0 {
        let tail = bucket.subrange(1, bucket.len() as int);
        assert(bucket[0] != '/') by {
            assert(bucket.contains(bucket[0]));
        }
        assert(s[0] == bucket[0]);
        assert(!tail.contains('/')) by {
            if tail.contains('/') {
                let i = choose|i: int| 0 <= i < tail.len() && tail[i] == '/';
                assert(bucket[i + 1] == '/');
            }
        }
        assert(s.subrange(1, s.len() as int) == tail + rest);
        lemma_first_slash(tail, rest);
    }
}

proof fn lemma_without_end_slashes(s: Seq<char>)
    ensures
        without_end_slashes(s).is_prefix_of(s),
        without_end_slashes(s).len() > 0 ==> without_end_slashes(s).last() != '/',
        forall|i: int| without_end_slashes(s).len() <= i < s.len() ==> #[trigger] s[i] == '/',
    decreases s.len(),
{
    if s.len() > 0 && s.last() == '/' {
        lemma_without_end_slashes(s.drop_last());
        assert forall|i: int| without_end_slashes(s).len() <= i < s.len() implies #[trigger] s[i]
            == '/' by {
            if i < s.len() - 1 {
                assert(s.drop_last()[i] == s[i]);
            }
        }
    }
}

/// A bucket's name ends at the first slash, and what follows is the prefix,
/// without the slashes at its end.
pub proof fn buckets_end_at_the_first_slash(bucket: Seq<char>, path: Seq<char>)
    requires
        !bucket.contains('/'),
    ensures
        bucket_and_prefix(bucket).0 == bucket,
        bucket_and_prefix(bucket).1.len() == 0,
        bucket_and_prefix(bucket + seq!['/'] + path).0 == bucket,
        bucket_and_prefix(bucket + seq!['/'] + path).1.is_prefix_of(path),
        bucket_and_prefix(bucket + seq!['/'] + path).1.len() > 0 ==> bucket_and_prefix(
            bucket + seq!['/'] + path,
        ).1.last() != '/',
        forall|i: int|
            bucket_and_prefix(bucket + seq!['/'] + path).1.len() <= i < path.len()
                ==> #[trigger] path[i] == '/',
{
    assert(bucket + Seq::<char>::empty() == bucket);
    lemma_first_slash(bucket, Seq::empty());
    let rest = seq!['/'] + path;
    lemma_first_slash(bucket, rest);
    let s = bucket + seq!['/'] + path;
    assert(bucket + rest == s);
    assert(s.subrange(0, bucket.len() as int) == bucket);
    assert(s.subrange(bucket.len() as int + 1, s.len() as int) == path);
    lemma_without_end_slashes(path);
}

/// An archive goes by its scheme, and keeps the rest of its name: a path as it
/// is, a bucket with its prefix. Only one that is asked of the host's service,
/// or half a key, can fail; a name without one of the schemes is refused.
pub proof fn archives_go_by_their_scheme(
    bk: BackupSection,
    imds_fault: Option<Seq<char>>,
    rest: Seq<char>,
)
    requires
        bk.archive is Some,
    ensures
        bk.archive->0@ == "file://"@ + rest ==> storage_of(bk, imds_fault) == Ok::<_, Seq<char>>(
            StorageView::Fs { path: rest },
        ),
        bk.archive->0@ == "gs://"@ + rest ==> ({
            let r = storage_of(bk, imds_fault);
            r is Ok && r->Ok_0 is Gcs && r->Ok_0->Gcs_bucket == bucket_and_prefix(rest).0
                && r->Ok_0->Gcs_prefix == bucket_and_prefix(rest).1
        }),
        bk.archive->0@ == "s3://"@ + rest ==> ({
            let r = storage_of(bk, imds_fault);
            (r is Ok <==> credentials(bk, imds_fault) is Ok) && (r is Ok ==> r->Ok_0 is S3
                && r->Ok_0->S3_bucket == bucket_and_prefix(rest).0 && r->Ok_0->S3_prefix
                == bucket_and_prefix(rest).1 && (bk.region matches Some(n) ==> r->Ok_0->region
                == n@) && (bk.region is None ==> r->Ok_0->region == "us-east-1"@)
                && r->Ok_0->force_path_style == bk.force_path_style)
        }),
        storage_of(bk, imds_fault) is Ok ==> "s3://"@.is_prefix_of(bk.archive->0@)
            || "gs://"@.is_prefix_of(bk.archive->0@) || "file://"@.is_prefix_of(bk.archive->0@),
{
    reveal_strlit("s3://");
    reveal_strlit("gs://");
    reveal_strlit("file://");
    let a = bk.archive->0@;
    assert("s3://"@[0] == 's' && "gs://"@[0] == 'g' && "file://"@[0] == 'f');
    if a == "file://"@ + rest {
        assert(a[0] == 'f');
        assert(a.subrange("file://"@.len() as int, a.len() as int) == rest);
        assert(!"s3://"@.is_prefix_of(a)) by {
            if "s3://"@.is_prefix_of(a) {
                assert(a.subrange(0, 5)[0] == a[0]);
            }
        }
        assert(!"gs://"@.is_prefix_of(a)) by {
            if "gs://"@.is_prefix_of(a) {
                assert(a.subrange(0, 5)[0] == a[0]);
            }
        }
        assert("file://"@.is_prefix_of(a));
    }
    if a == "gs://"@ + rest {
        assert(a[0] == 'g');
        assert(a.subrange("gs://"@.len() as int, a.len() as int) == rest);
        assert(!"s3://"@.is_prefix_of(a)) by {
            if "s3://"@.is_prefix_of(a) {
                assert(a.subrange(0, 5)[0] == a[0]);
            }
        }
        assert("gs://"@.is_prefix_of(a));
    }
    if a == "s3://"@ + rest {
        assert(a.subrange("s3://"@.len() as int, a.len() as int) == rest);
        assert("s3://"@.is_prefix_of(a));
    }
}

proof fn lemma_last_dot(stem: Seq<char>, tail: Seq<char>)
    requires
        !tail.contains('.'),
    ensures
        last_dot(stem.push('.') + tail) == stem.len(),
    decreases tail.len(),
{
    let s = stem.push('.') + tail;
    if tail.len() == 0 {
        assert(s == stem.push('.'));
    } else {
        let front = tail.drop_last();
        assert(s.last() == tail.last());
        assert(tail.contains(tail.last()));
        assert(s.drop_last() == stem.push('.') + front);
        assert(!front.contains('.')) by {
            if front.contains('.') {
                let i = choose|i: int| 0 <= i < front.len() && front[i] == '.';
                assert(tail[i] == '.');
            }
        }
        lemma_last_dot(stem, front);
    }
}

/// A file belongs to the configuration when it has a name and ends in `.toml`;
/// one that is named so alone does not.
pub proof fn fragments_are_told_by_their_ending(stem: Seq<char>, ending: Seq<char>)
    requires
        !ending.contains('.'),
    ensures
        is_fragment(stem.push('.') + ending) <==> stem.len() > 0 && ending == "toml"@,
{
    lemma_last_dot(stem, ending);
    let s = stem.push('.') + ending;
    assert(s.subrange(stem.len() as int + 1, s.len() as int) == ending);
    assert(extension(s) == if stem.len() == 0 {
        None
    } else {
        Some(ending)
    });
}

/// A file without a dot does not belong to the configuration.
pub proof fn files_without_ending_are_no_fragments(name: Seq<char>)
    requires
        !name.contains('.'),
    ensures
        !is_fragment(name),
{
    lemma_no_dot(name);
}

proof fn lemma_no_dot(name: Seq<char>)
    requires
        !name.contains('.'),
    ensures
        last_dot(name) == -1,
    decreases name.len(),
{
    if name.len() > 0 {
        assert(name.contains(name.last()));
        let front = name.drop_last();
        assert(!front.contains('.')) by {
            if front.contains('.') {
                let i = choose|i: int| 0 <= i < front.len() && front[i] == '.';
                assert(name[i] == '.');
            }
        }
        lemma_no_dot(front);
    }
}

/// The fragments are all files of the directory that belong to the
/// configuration, in the order they have there.
pub proof fn fragments_keep_their_order(names: Seq<Seq<char>>)
    ensures
        fragments_in(names) == names.filter(|n: Seq<char>| is_fragment(n)),
    decreases names.len(),
{
    reveal(Seq::filter);
    if names.len() > 0 {
        fragments_keep_their_order(names.drop_last());
    }
}

/// Names are ordered as in a dictionary: what both begin with does not matter,
/// the first character that differs decides, and a name stands before what it
/// begins.
pub proof fn names_are_ordered_by_the_first_difference(
    common: Seq<char>,
    a: Seq<char>,
    b: Seq<char>,
)
    ensures
        not_after(common, common + b),
        a.len() > 0 ==> !not_after(common + a, common),
        a.len() > 0 && b.len() > 0 && a[0] != b[0] ==> (not_after(common + a, common + b) <==> a[0]
            < b[0]),
    decreases common.len(),
{
    if common.len() == 0 {
        assert(common + a == a);
        assert(common + b == b);
    } else {
        let rest = common.subrange(1, common.len() as int);
        names_are_ordered_by_the_first_difference(rest, a, b);
        let ca = common + a;
        let cb = common + b;
        assert(ca.subrange(1, ca.len() as int) == rest + a);
        assert(cb.subrange(1, cb.len() as int) == rest + b);
        assert(ca[0] == common[0] && cb[0] == common[0]);
    }
}

/// A column entry names its column by number or by name, not by both. One by
/// number states target and type and is no pattern; one by name states at least
/// one of them, and no target where it is a pattern.
pub proof fn column_entries_name_their_column_once(ctx: Seq<char>, c: ColumnPatch)
    ensures
        column_fault(ctx, c) is None && c.attnum is Some ==> c.name is None && c.target is Some
            && c.target_type is Some && c.match_kind is None,
        column_fault(ctx, c) is None && c.attnum is None ==> c.name is Some && (c.target is Some
            || c.target_type is Some),
        column_fault(ctx, c) is None && c.target is Some && c.name is Some ==> c.match_kind is None
            || c.match_kind == Some(MatchKind::Exact),
        c.attnum is Some && c.name is None && c.target is Some && c.target_type is Some
            && c.match_kind is None ==> column_fault(ctx, c) is None,
        c.attnum is None && c.name is Some && c.target is None && c.target_type is Some
            ==> column_fault(ctx, c) is None,
        c.attnum is None && c.name is Some && c.target is Some && (c.match_kind is None
            || c.match_kind == Some(MatchKind::Exact)) ==> column_fault(ctx, c) is None,
{
}

/// A block is as sound as each of its columns.
pub proof fn every_column_entry_is_checked(block: Seq<char>, cols: Seq<ColumnPatch>)
    ensures
        columns_fault(block, cols) is None <==> forall|i: int|
            0 <= i < cols.len() ==> column_fault(
                crate::config::tables::column_context(block, i as nat),
                #[trigger] cols[i],
            ) is None,
    decreases cols.len(),
{
    if cols.len() > 0 {
        let front = cols.drop_last();
        every_column_entry_is_checked(block, front);
        assert forall|i: int| 0 <= i < front.len() implies front[i] == #[trigger] cols[i] by {}
        if columns_fault(block, front) is Some {
            let i = choose|i: int|
                0 <= i < front.len() && !(column_fault(
                    crate::config::tables::column_context(block, i as nat),
                    #[trigger] front[i],
                ) is None);
            assert(cols[i] == front[i]);
        }
    }
}

/// An entry by number becomes a column of the projection, behind those before
/// it; one by name becomes a rule for columns of that name.
pub proof fn column_entries_are_all_taken(
    rel: crate::schema::RelKey,
    kind: MatchKind,
    cols: Seq<ColumnPatch>,
    c: ColumnPatch,
)
    ensures
        c.attnum is Some && c.target is Some && c.target_type is Some ==> ({
            let p = pinned(cols.push(c));
            p.drop_last() == pinned(cols) && p.last().src_attnum == c.attnum->0
                && p.last().target_name == c.target->0@ && p.last().target_type
                == c.target_type->0@
        }),
        c.attnum is None ==> pinned(cols.push(c)) == pinned(cols),
        c.name is Some ==> ({
            let n = named(rel, kind, cols.push(c));
            n.drop_last() == named(rel, kind, cols) && n.last().rel == rel && n.last().rel_kind
                == kind && n.last().attname == c.name->0@ && (c.match_kind is None
                ==> n.last().att_kind == MatchKind::Exact) && (c.match_kind matches Some(k)
                ==> n.last().att_kind == k) && (c.target matches Some(t) ==> n.last().target_name
                == Some(t@)) && (c.target_type matches Some(t) ==> n.last().target_type == Some(t@))
        }),
        c.name is None ==> named(rel, kind, cols.push(c)) == named(rel, kind, cols),
{
    assert(cols.push(c).drop_last() == cols);
}

/// A block is refused for the names of its system columns, for one of its
/// columns, for columns by number beside columns by name, or for columns by
/// number under a pattern; for nothing else.
pub proof fn sound_blocks_are_taken(b: TableBlock)
    ensures
        block_fault(b) is None <==> b.patch.system_fault is None && columns_fault(
            crate::config::tables::block_context(b),
            b.patch.columns@,
        ) is None && (pinned(b.patch.columns@).len() > 0 ==> (b.patch.match_kind is None
            || b.patch.match_kind == Some(MatchKind::Exact)) && named(
            block_rel(b),
            kind_of(b.patch.match_kind),
            b.patch.columns@,
        ).len() == 0),
{
}

/// A block for one relation with a projection maps it, unless it opts out: to
/// the table and database it names, else to the relation's own name and to the
/// database of its namespace.
pub proof fn pinned_blocks_are_mapped(
    s: SectionView,
    b: TableBlock,
    namespaces: Seq<(String, NamespaceMapping)>,
    database: Seq<char>,
)
    requires
        b.patch.match_kind is None || b.patch.match_kind == Some(MatchKind::Exact),
        pinned(b.patch.columns@).len() > 0,
        b.patch.replicate != Some(false),
    ensures
        ({
            let r = with_block(s, b, namespaces, database);
            let (rel, m) = r.tables.last();
            &&& r.tables.drop_last() == s.tables
            &&& rel.namespace == b.namespace@ && rel.name == b.name@
            &&& m.columns == pinned(b.patch.columns@)
            &&& (b.patch.target_table matches Some(t) ==> m.target.table == t@)
            &&& (b.patch.target_table is None ==> m.target.table == b.name@)
            &&& (b.patch.target_database matches Some(d) ==> m.target.database == d@)
            &&& (b.patch.target_database is None && namespace_in(namespaces, b.namespace@) is None
                ==> m.target.database == database)
            &&& (b.patch.target_database is None && namespace_in(namespaces, b.namespace@) is Some
                && namespace_in(namespaces, b.namespace@)->0.target_database is Some
                ==> m.target.database == namespace_in(
                namespaces,
                b.namespace@,
            )->0.target_database->0@)
            &&& (b.patch.initial_load is None ==> r.table_initial_loads == s.table_initial_loads)
            &&& (b.patch.initial_load is Some ==> r.table_initial_loads.len()
                == s.table_initial_loads.len() + 1)
            &&& r.table_opt_ins == s.table_opt_ins
        }),
{
}

/// A block for one relation without a projection is an opt-in, which says what
/// the block says; it maps nothing by itself.
pub proof fn other_blocks_are_opt_ins(
    s: SectionView,
    b: TableBlock,
    namespaces: Seq<(String, NamespaceMapping)>,
    database: Seq<char>,
)
    requires
        b.patch.match_kind is None || b.patch.match_kind == Some(MatchKind::Exact),
        pinned(b.patch.columns@).len() == 0,
    ensures
        ({
            let r = with_block(s, b, namespaces, database);
            let (rel, row) = r.table_opt_ins.last();
            &&& r.table_opt_ins.drop_last() == s.table_opt_ins
            &&& rel.namespace == b.namespace@ && rel.name == b.name@
            &&& row.replicate == b.patch.replicate
            &&& (b.patch.target_table matches Some(t) ==> row.target_table == Some(t@))
            &&& (b.patch.target_database matches Some(d) ==> row.target_database == Some(d@))
            &&& (b.patch.initial_load is None <==> row.initial_load is None)
            &&& r.tables == s.tables && r.table_initial_loads == s.table_initial_loads
        }),
{
}

/// Whatever a block is, its rule and its rules for columns are stated behind
/// those of the blocks before it.
pub proof fn every_block_states_its_rule(
    s: SectionView,
    b: TableBlock,
    namespaces: Seq<(String, NamespaceMapping)>,
    database: Seq<char>,
)
    ensures
        ({
            let r = with_block(s, b, namespaces, database);
            let (rel, kind, rule) = r.table_entries.last();
            &&& r.table_entries.drop_last() == s.table_entries
            &&& rel.namespace == b.namespace@ && rel.name == b.name@
            &&& (b.patch.match_kind is None ==> kind == MatchKind::Exact)
            &&& (b.patch.match_kind matches Some(k) ==> kind == k)
            &&& rule.replicate == b.patch.replicate
            &&& (b.patch.target_table matches Some(t) ==> rule.target_table == Some(t@))
            &&& (b.patch.target_database matches Some(d) ==> rule.target_database == Some(d@))
            &&& (b.patch.order_by is None <==> rule.order_by is None)
            &&& (b.patch.primary_key is None <==> rule.primary_key is None)
            &&& s.column_entries.is_prefix_of(r.column_entries)
        }),
{
}

/// A configuration is sound when the names of its system columns, its archive
/// and each of its blocks are.
pub proof fn sound_documents_are_taken(doc: ConfigDocument)
    ensures
        document_fault(doc) is None ==> doc.system_fault is None && archive_fault(doc) is None
            && section_of(
            doc.tables@,
            namespace_rules(doc.namespaces@),
            patched_conn(default_conn(), doc.ch).database,
        ) is Ok,
        doc.system_fault is None && archive_fault(doc) is None && section_of(
            doc.tables@,
            namespace_rules(doc.namespaces@),
            patched_conn(default_conn(), doc.ch).database,
        ) is Ok ==> document_fault(doc) is None,
        doc.system_fault matches Some(m) ==> document_fault(doc) == Some(m@),
        doc.backup is None ==> archive_fault(doc) is None,
{
}

/// A section is built of all its blocks, or refused with the first that is not
/// sound.
pub proof fn first_unsound_block_is_reported(
    blocks: Seq<TableBlock>,
    b: TableBlock,
    namespaces: Seq<(String, NamespaceMapping)>,
    database: Seq<char>,
)
    ensures
        section_of(blocks, namespaces, database) is Err ==> section_of(
            blocks.push(b),
            namespaces,
            database,
        ) == section_of(blocks, namespaces, database),
        section_of(blocks, namespaces, database) is Ok && block_fault(b) is Some ==> section_of(
            blocks.push(b),
            namespaces,
            database,
        ) == Err::<SectionView, _>(block_fault(b)->0),
        section_of(blocks.push(b), namespaces, database) is Ok <==> section_of(
            blocks,
            namespaces,
            database,
        ) is Ok && block_fault(b) is None,
{
    assert(blocks.push(b).drop_last() == blocks);
}

/// A way to seed is told by its name, in any case and with spaces round it.
pub proof fn seeding_is_told_by_its_name(s: Seq<char>)
    ensures
        ({
            let n = lowered(trimmed_end(trimmed_start(s)));
            &&& n == "off"@ ==> BootstrapMode::named(s) == Some(BootstrapMode::Off)
            &&& n == "direct"@ ==> BootstrapMode::named(s) == Some(BootstrapMode::Direct)
            &&& n == "object_store"@ ==> BootstrapMode::named(s) == Some(BootstrapMode::ObjectStore)
            &&& n == "object-store"@ ==> BootstrapMode::named(s) == Some(BootstrapMode::ObjectStore)
            &&& n.len() == 0 ==> BootstrapMode::named(s) is None
        }),
{
    reveal_strlit("off");
    reveal_strlit("direct");
    reveal_strlit("object_store");
    reveal_strlit("object-store");
    let n = lowered(trimmed_end(trimmed_start(s)));
    assert("off"@.len() == 3 && "direct"@.len() == 6);
    assert("object_store"@.len() == 12 && "object-store"@.len() == 12);
    if n == "object_store"@ || n == "object-store"@ {
        assert(n.len() == 12);
    }
}

} // verus!
