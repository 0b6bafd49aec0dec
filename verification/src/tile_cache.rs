//! The tile cache: what stays in it, what is fetched into it, and when a view is complete.

use vstd::prelude::*;
use crate::single::Single;
use crate::tiles::{tile_cache_limit, VisibleTileGrid};

verus! {

/// A finished tile with what is drawn of it.
#[derive(Debug, Clone)]
pub struct PreviewTile<T> {
    pub ix: i32,
    pub iy: i32,
    pub options_hash: u64,
    pub picture: T,
}

/// The tile belongs to what is on screen and is to be kept there.
pub open spec fn wanted<T>(tile: PreviewTile<T>, grid: VisibleTileGrid) -> bool {
    tile.options_hash == grid.opt_hash && grid.is_priority(tile.ix, tile.iy)
}

/// What is left of the cache once tiles that are not wanted have been dropped from among the
/// first `i`, the last of them first, until no more than `limit` are left.
pub open spec fn thinned<T>(
    cache: Seq<PreviewTile<T>>,
    i: nat,
    limit: nat,
    grid: VisibleTileGrid,
) -> Seq<PreviewTile<T>>
    decreases i,
{
    if i == 0 || cache.len() <= limit {
        cache
    } else if wanted(cache[i - 1], grid) {
        thinned(cache, (i - 1) as nat, limit, grid)
    } else {
        thinned(cache.remove(i - 1), (i - 1) as nat, limit, grid)
    }
}

/// What is left of the cache for a view.
pub open spec fn evicted<T>(cache: Seq<PreviewTile<T>>, grid: Option<VisibleTileGrid>) -> Seq<
    PreviewTile<T>,
> {
    let limit = crate::tiles::keep_limit(grid) as nat;
    if cache.len() <= limit {
        cache
    } else {
        match grid {
            None => cache.take(limit as int),
            Some(g) => thinned(cache, cache.len(), limit, g),
        }
    }
}

/// Drops tiles that are not on screen once the cache is over its limit, so that moving the
/// view about keeps what is there.
pub fn evict_tile_cache<T>(cache: &mut Vec<PreviewTile<T>>, grid: &Option<VisibleTileGrid>)
    requires
        grid is Some ==> grid->0.wf(),
    ensures
        final(cache)@ == evicted(old(cache)@, *grid),
{
    let limit: usize = tile_cache_limit(grid);
    if cache.len() <= limit {
        return;
    }
    match grid {
        None => {
            cache.truncate(limit);
        },
        Some(g) => {
            let mut i: usize = cache.len();
            let ghost start = cache@;
            while cache.len() > limit && i > 0
                invariant
                    g.wf(),
                    i <= cache.len(),
                    thinned(start, start.len(), limit as nat, *g) == thinned(
                        cache@,
                        i as nat,
                        limit as nat,
                        *g,
                    ),
                decreases i,
            {
                i = i - 1;
                let keep: bool = cache[i].options_hash == g.opt_hash && g.is_priority(
                    cache[i].ix,
                    cache[i].iy,
                );
                if !keep {
                    cache.remove(i);
                }
            }
        },
    }
}

proof fn lemma_thinned<T>(
    cache: Seq<PreviewTile<T>>,
    i: nat,
    limit: nat,
    grid: VisibleTileGrid,
    k: int,
)
    requires
        i <= cache.len(),
        0 <= k < cache.len(),
        wanted(cache[k], grid),
    ensures
        thinned(cache, i, limit, grid).contains(cache[k]),
    decreases i,
{
    if i == 0 || cache.len() <= limit {
    } else if wanted(cache[i - 1], grid) {
        lemma_thinned(cache, (i - 1) as nat, limit, grid, k);
    } else {
        let rest = cache.remove(i - 1);
        if k < i - 1 {
            assert(rest[k] == cache[k]);
            lemma_thinned(rest, (i - 1) as nat, limit, grid, k);
        } else {
            assert(rest[k - 1] == cache[k]);
            lemma_thinned(rest, (i - 1) as nat, limit, grid, k - 1);
        }
    }
}

proof fn lemma_thinned_limit<T>(
    cache: Seq<PreviewTile<T>>,
    i: nat,
    limit: nat,
    grid: VisibleTileGrid,
)
    requires
        i <= cache.len(),
        forall|k: int| i <= k < cache.len() ==> wanted(#[trigger] cache[k], grid),
    ensures
        ({
            let left = thinned(cache, i, limit, grid);
            &&& left.len() <= cache.len()
            &&& left.len() <= limit || forall|k: int|
                0 <= k < left.len() ==> wanted(#[trigger] left[k], grid)
            &&& cache.len() >= limit ==> left.len() >= limit
        }),
    decreases i,
{
    if i == 0 || cache.len() <= limit {
    } else if wanted(cache[i - 1], grid) {
        lemma_thinned_limit(cache, (i - 1) as nat, limit, grid);
    } else {
        let rest = cache.remove(i - 1);
        assert forall|k: int| i - 1 <= k < rest.len() implies wanted(#[trigger] rest[k], grid) by {
            assert(rest[k] == cache[k + 1]);
        }
        lemma_thinned_limit(rest, (i - 1) as nat, limit, grid);
    }
}

/// Eviction never drops a tile that is on screen and to be kept there.
pub proof fn eviction_keeps_what_is_wanted<T>(
    cache: Seq<PreviewTile<T>>,
    grid: VisibleTileGrid,
    k: int,
)
    requires
        0 <= k < cache.len(),
        wanted(cache[k], grid),
    ensures
        evicted(cache, Some(grid)).contains(cache[k]),
{
    lemma_thinned(cache, cache.len(), crate::tiles::keep_limit(Some(grid)) as nat, grid, k);
}

/// Eviction brings the cache down to its limit, and no further, unless all that is left is
/// wanted; a cache within its limit stays as it is.
pub proof fn eviction_stops_at_the_limit<T>(
    cache: Seq<PreviewTile<T>>,
    grid: Option<VisibleTileGrid>,
)
    ensures
        ({
            let limit = crate::tiles::keep_limit(grid);
            let left = evicted(cache, grid);
            &&& cache.len() <= limit ==> left == cache
            &&& cache.len() > limit ==> left.len() >= limit
            &&& left.len() <= limit || (grid is Some && forall|k: int|
                0 <= k < left.len() ==> wanted(#[trigger] left[k], grid->0))
        }),
{
    if let Some(g) = grid {
        lemma_thinned_limit(cache, cache.len(), crate::tiles::keep_limit(grid) as nat, g);
    }
}

/// A finished tile at this place is in the cache.
pub open spec fn holds<T>(cache: Seq<PreviewTile<T>>, ix: i32, iy: i32, hash: u64) -> bool {
    exists|k: int|
        0 <= k < cache.len() && (#[trigger] cache[k]).ix == ix && cache[k].iy == iy
            && cache[k].options_hash == hash
}

fn has_tile<T>(cache: &Vec<PreviewTile<T>>, ix: i32, iy: i32, hash: u64) -> (r: bool)
    ensures
        r == holds(cache@, ix, iy, hash),
{
    let mut i: usize = 0;
    while i < cache.len()
        invariant
            i <= cache.len(),
            forall|k: int|
                0 <= k < i ==> !((#[trigger] cache@[k]).ix == ix && cache@[k].iy == iy
                    && cache@[k].options_hash == hash),
        decreases cache.len() - i,
    {
        if cache[i].ix == ix && cache[i].iy == iy && cache[i].options_hash == hash {
            return true;
        }
        i = i + 1;
    }
    false
}

/// Every tile of the view that is to be kept is in the cache.
pub fn visible_priority_tiles_ready<T>(
    tiles: &Vec<PreviewTile<T>>,
    grid: &VisibleTileGrid,
    opt_hash: u64,
) -> (r: bool)
    requires
        grid.wf(),
    ensures
        r == forall|ix: i32, iy: i32| #[trigger]
            grid.is_priority(ix, iy) ==> holds(tiles@, ix, iy, opt_hash),
{
    let mut iy: i32 = grid.iy0;
    while iy <= grid.iy1
        invariant
            grid.wf(),
            grid.iy0 <= iy <= grid.iy1 + 1,
            forall|x: i32, y: i32| #[trigger]
                grid.is_priority(x, y) && y < iy ==> holds(tiles@, x, y, opt_hash),
        decreases grid.iy1 + 1 - iy,
    {
        let mut ix: i32 = grid.ix0;
        while ix <= grid.ix1
            invariant
                grid.wf(),
                grid.iy0 <= iy <= grid.iy1,
                grid.ix0 <= ix <= grid.ix1 + 1,
                forall|x: i32, y: i32| #[trigger]
                    grid.is_priority(x, y) && (y < iy || (y == iy && x < ix)) ==> holds(
                        tiles@,
                        x,
                        y,
                        opt_hash,
                    ),
            decreases grid.ix1 + 1 - ix,
        {
            if grid.is_priority(ix, iy) {
                if !has_tile(tiles, ix, iy, opt_hash) {
                    return false;
                }
            }
            ix = ix + 1;
        }
        iy = iy + 1;
    }
    true
}

/// What is known of the fetching of tiles for one image.
pub struct TileFetch<T> {
    pub cache: Vec<PreviewTile<T>>,
    /// The tile that is being made for this image.
    pub inflight: Option<(i32, i32)>,
    /// Tiles that failed, with the generation in which they did.
    pub failed: Vec<(u64, i32, i32)>,
    pub generation: u64,
}

/// The tile failed in the current generation.
pub open spec fn has_failed(failed: Seq<(u64, i32, i32)>, generation: u64, ix: i32, iy: i32) -> bool {
    exists|k: int| 0 <= k < failed.len() && #[trigger] failed[k] == (generation, ix, iy)
}

fn failed_before(failed: &Vec<(u64, i32, i32)>, generation: u64, ix: i32, iy: i32) -> (r: bool)
    ensures
        r == has_failed(failed@, generation, ix, iy),
{
    let mut i: usize = 0;
    while i < failed.len()
        invariant
            i <= failed.len(),
            forall|k: int| 0 <= k < i ==> #[trigger] failed@[k] != (generation, ix, iy),
        decreases failed.len() - i,
    {
        let (g, fx, fy) = failed[i];
        if g == generation && fx == ix && fy == iy {
            return true;
        }
        i = i + 1;
    }
    false
}

/// The tile is missing and may be fetched. A tile on the rim or in the first row of the sensor
/// is tried again though it failed.
pub open spec fn missing<T>(grid: VisibleTileGrid, fetch: TileFetch<T>, ix: i32, iy: i32) -> bool {
    &&& grid.is_priority(ix, iy)
    &&& fetch.inflight != Some((ix, iy))
    &&& iy == 0 || grid.on_rim(ix, iy) || !has_failed(fetch.failed@, fetch.generation, ix, iy)
    &&& !holds(fetch.cache@, ix, iy, grid.opt_hash)
}

/// The lower, the sooner a tile is fetched: the first rows, then the rim, then by distance
/// from the middle.
pub open spec fn urgency(grid: VisibleTileGrid, ix: i32, iy: i32) -> Single {
    let d = grid.distance_spec(ix, iy);
    if iy == 0 || iy == grid.iy0 {
        d.minus(Single::whole(1_000_000))
    } else if grid.on_rim(ix, iy) {
        d.minus(Single::whole(100_000))
    } else {
        d
    }
}

/// The choice so far and its urgency.
pub type Choice = Option<(i32, i32, Single)>;

/// The better of the choice so far and this tile; the earlier of two that are as urgent.
pub open spec fn preferred<T>(
    best: Choice,
    grid: VisibleTileGrid,
    fetch: TileFetch<T>,
    ix: i32,
    iy: i32,
) -> Choice {
    let d = urgency(grid, ix, iy);
    if missing(grid, fetch, ix, iy) && (best is None || d.less(best->Some_0.2)) {
        Some((ix, iy, d))
    } else {
        best
    }
}

/// The choice after the first `n` tiles of row `iy`.
pub open spec fn chosen_in_row<T>(
    best: Choice,
    grid: VisibleTileGrid,
    fetch: TileFetch<T>,
    iy: i32,
    n: nat,
) -> Choice
    decreases n,
{
    if n == 0 {
        best
    } else {
        preferred(
            chosen_in_row(best, grid, fetch, iy, (n - 1) as nat),
            grid,
            fetch,
            (grid.ix0 + n - 1) as i32,
            iy,
        )
    }
}

/// The choice after the first `n` rows.
pub open spec fn chosen<T>(grid: VisibleTileGrid, fetch: TileFetch<T>, n: nat) -> Choice
    decreases n,
{
    if n == 0 {
        None
    } else {
        chosen_in_row(
            chosen(grid, fetch, (n - 1) as nat),
            grid,
            fetch,
            (grid.iy0 + n - 1) as i32,
            (grid.ix1 - grid.ix0 + 1) as nat,
        )
    }
}

/// The tile to fetch next, row by row the first of the most urgent that are missing; none
/// where none is missing, or where the proxy is sharp enough.
pub fn visible_tile_to_request<T>(grid: &VisibleTileGrid, fetch: &TileFetch<T>) -> (r: Option<
    (i32, i32),
>)
    requires
        grid.wf(),
    ensures
        r == if grid.proxy_soft {
            match chosen(*grid, *fetch, (grid.iy1 - grid.iy0 + 1) as nat) {
                Some((ix, iy, d)) => Some((ix, iy)),
                None => None,
            }
        } else {
            None
        },
        r is Some ==> missing(*grid, *fetch, r->Some_0.0, r->Some_0.1),
        r is None && grid.proxy_soft ==> forall|ix: i32, iy: i32|
            !#[trigger] missing(*grid, *fetch, ix, iy),
{
    if !grid.proxy_soft {
        return None;
    }
    let mut best: Choice = None;
    let mut iy: i32 = grid.iy0;
    while iy <= grid.iy1
        invariant
            grid.wf(),
            grid.iy0 <= iy <= grid.iy1 + 1,
            best == chosen(*grid, *fetch, (iy - grid.iy0) as nat),
            best is Some ==> missing(*grid, *fetch, best->Some_0.0, best->Some_0.1),
            best is None ==> forall|x: i32, y: i32|
                #[trigger] missing(*grid, *fetch, x, y) ==> y >= iy,
        decreases grid.iy1 + 1 - iy,
    {
        let ghost before = best;
        let mut ix: i32 = grid.ix0;
        while ix <= grid.ix1
            invariant
                grid.wf(),
                grid.iy0 <= iy <= grid.iy1,
                grid.ix0 <= ix <= grid.ix1 + 1,
                best == chosen_in_row(before, *grid, *fetch, iy, (ix - grid.ix0) as nat),
                best is Some ==> missing(*grid, *fetch, best->Some_0.0, best->Some_0.1),
                best is None ==> forall|x: i32, y: i32|
                    #[trigger] missing(*grid, *fetch, x, y) ==> y > iy || (y == iy && x >= ix),
            decreases grid.ix1 + 1 - ix,
        {
            let rim: bool = iy == grid.iy0 || iy == grid.iy1 || ix == grid.ix0 || ix == grid.ix1;
            let busy: bool = match fetch.inflight {
                Some((fx, fy)) => fx == ix && fy == iy,
                None => false,
            };
            let open: bool = grid.is_priority(ix, iy) && !busy && (iy == 0 || rim
                || !failed_before(&fetch.failed, fetch.generation, ix, iy)) && !has_tile(
                &fetch.cache,
                ix,
                iy,
                grid.opt_hash,
            );
            assert((grid.ix0 + (ix - grid.ix0 + 1) as nat - 1) as i32 == ix);
            if open {
                let near: Single = grid.distance(ix, iy);
                let d: Single = if iy == 0 || iy == grid.iy0 {
                    near.minus(Single::whole(1_000_000))
                } else if rim {
                    near.minus(Single::whole(100_000))
                } else {
                    near
                };
                let better: bool = match best {
                    None => true,
                    Some((bx, by, bd)) => d.less(bd),
                };
                if better {
                    best = Some((ix, iy, d));
                }
            }
            ix = ix + 1;
        }
        assert((grid.iy0 + (iy - grid.iy0 + 1) as nat - 1) as i32 == iy);
        iy = iy + 1;
    }
    match best {
        Some((ix, iy, d)) => Some((ix, iy)),
        None => None,
    }
}

/// What is left of the first `n` tiles once one is finished for place `(ix, iy)`: the others.
pub open spec fn elsewhere<T>(cache: Seq<PreviewTile<T>>, n: nat, ix: i32, iy: i32) -> Seq<
    PreviewTile<T>,
>
    decreases n,
{
    if n == 0 {
        Seq::empty()
    } else {
        let before = elsewhere(cache, (n - 1) as nat, ix, iy);
        let t = cache[n - 1];
        if t.ix == ix && t.iy == iy {
            before
        } else {
            before.push(t)
        }
    }
}

/// Puts a finished tile at the head of the cache, in place of what was there for its place.
pub fn place_tile<T>(cache: Vec<PreviewTile<T>>, tile: PreviewTile<T>) -> (r: Vec<PreviewTile<T>>)
    ensures
        r@ == seq![tile] + elsewhere(cache@, cache@.len(), tile.ix, tile.iy),
{
    let (ix, iy) = (tile.ix, tile.iy);
    let mut out: Vec<PreviewTile<T>> = Vec::new();
    out.push(tile);
    let ghost all = cache@;
    proof {
        assert(out@ =~= seq![tile] + elsewhere(all, 0, ix, iy));
    }
    for t in it: cache
        invariant
            it.seq() == all,
            ix == tile.ix,
            iy == tile.iy,
            out@ == seq![tile] + elsewhere(all, it.index() as nat, ix, iy),
    {
        let ghost n = it.index();
        proof {
            assert(t == all[n]);
        }
        if !(t.ix == ix && t.iy == iy) {
            out.push(t);
        }
        proof {
            assert(out@ =~= seq![tile] + elsewhere(all, (n + 1) as nat, ix, iy));
        }
    }
    out
}

/// What is left of the first `n` tiles when those of other settings are dropped.
pub open spec fn of_settings<T>(cache: Seq<PreviewTile<T>>, n: nat, hash: u64) -> Seq<
    PreviewTile<T>,
>
    decreases n,
{
    if n == 0 {
        Seq::empty()
    } else if cache[n - 1].options_hash == hash {
        of_settings(cache, (n - 1) as nat, hash).push(cache[n - 1])
    } else {
        of_settings(cache, (n - 1) as nat, hash)
    }
}

/// Drops the tiles that were made with other settings.
pub fn keep_tiles_of<T>(cache: Vec<PreviewTile<T>>, hash: u64) -> (r: Vec<PreviewTile<T>>)
    ensures
        r@ == of_settings(cache@, cache@.len(), hash),
{
    let mut out: Vec<PreviewTile<T>> = Vec::new();
    let ghost all = cache@;
    for t in it: cache
        invariant
            it.seq() == all,
            out@ == of_settings(all, it.index() as nat, hash),
    {
        proof {
            assert(t == all[it.index() as int]);
        }
        if t.options_hash == hash {
            out.push(t);
        }
    }
    out
}

proof fn lemma_elsewhere<T>(cache: Seq<PreviewTile<T>>, n: nat, ix: i32, iy: i32)
    requires
        n <= cache.len(),
    ensures
        forall|i: int|
            0 <= i < elsewhere(cache, n, ix, iy).len() ==> !((#[trigger] elsewhere(
                cache,
                n,
                ix,
                iy,
            )[i]).ix == ix && elsewhere(cache, n, ix, iy)[i].iy == iy),
        forall|k: int|
            0 <= k < n && !((#[trigger] cache[k]).ix == ix && cache[k].iy == iy) ==> elsewhere(
                cache,
                n,
                ix,
                iy,
            ).contains(cache[k]),
    decreases n,
{
    if n > 0 {
        let m = (n - 1) as nat;
        lemma_elsewhere(cache, m, ix, iy);
        let before = elsewhere(cache, m, ix, iy);
        let now = elsewhere(cache, n, ix, iy);
        assert forall|k: int|
            0 <= k < n && !((#[trigger] cache[k]).ix == ix && cache[k].iy
                == iy) implies now.contains(cache[k]) by {
            if k < m {
                assert(before.contains(cache[k]));
                let j = choose|j: int| 0 <= j < before.len() && before[j] == cache[k];
                assert(now[j] == cache[k]);
            } else {
                assert(now[now.len() - 1] == cache[k]);
            }
        }
    }
}

/// A finished tile is the only one for its place, and no tile of another place is lost.
pub proof fn placed_tile_is_the_only_one<T>(cache: Seq<PreviewTile<T>>, tile: PreviewTile<T>)
    ensures
        ({
            let r = seq![tile] + elsewhere(cache, cache.len(), tile.ix, tile.iy);
            &&& r[0] == tile
            &&& forall|i: int|
                0 < i < r.len() ==> !((#[trigger] r[i]).ix == tile.ix && r[i].iy == tile.iy)
            &&& forall|k: int|
                0 <= k < cache.len() && !((#[trigger] cache[k]).ix == tile.ix && cache[k].iy
                    == tile.iy) ==> r.contains(cache[k])
        }),
{
    let rest = elsewhere(cache, cache.len(), tile.ix, tile.iy);
    let r = seq![tile] + rest;
    lemma_elsewhere(cache, cache.len(), tile.ix, tile.iy);
    assert forall|i: int| 0 < i < r.len() implies !((#[trigger] r[i]).ix == tile.ix && r[i].iy
        == tile.iy) by {
        assert(r[i] == rest[i - 1]);
    }
    assert forall|k: int|
        0 <= k < cache.len() && !((#[trigger] cache[k]).ix == tile.ix && cache[k].iy
            == tile.iy) implies r.contains(cache[k]) by {
        assert(rest.contains(cache[k]));
        let j = choose|j: int| 0 <= j < rest.len() && rest[j] == cache[k];
        assert(r[j + 1] == cache[k]);
    }
}

/// What came from the worker that makes tiles.
pub enum TileEvent<T> {
    Nothing,
    /// The worker is gone.
    Lost,
    /// A tile of this generation.
    Made { generation: u64, tile: PreviewTile<T> },
    Failed,
}

/// The cache once a finished tile was taken into it.
pub open spec fn with_tile<T>(
    cache: Seq<PreviewTile<T>>,
    tile: PreviewTile<T>,
    grid: Option<VisibleTileGrid>,
) -> Seq<PreviewTile<T>> {
    evicted(seq![tile] + elsewhere(cache, cache.len(), tile.ix, tile.iy), grid)
}

/// What is done with what came from the worker: a tile of the present generation is taken, one
/// of another is dropped, and one that failed is noted.
pub fn poll_tile<T>(
    fetch: &mut TileFetch<T>,
    event: TileEvent<T>,
    grid: &Option<VisibleTileGrid>,
)
    requires
        grid is Some ==> grid->0.wf(),
    ensures
        final(fetch).generation == old(fetch).generation,
        final(fetch).inflight == match event {
            TileEvent::Nothing => old(fetch).inflight,
            _ => None,
        },
        final(fetch).failed@ == match (event, old(fetch).inflight) {
            (TileEvent::Failed, Some((ix, iy))) => old(fetch).failed@.push(
                (old(fetch).generation, ix, iy),
            ),
            _ => old(fetch).failed@,
        },
        final(fetch).cache@ == match event {
            TileEvent::Made { generation, tile } => if generation == old(fetch).generation {
                with_tile(old(fetch).cache@, tile, *grid)
            } else {
                old(fetch).cache@
            },
            _ => old(fetch).cache@,
        },
{
    match event {
        TileEvent::Nothing => {},
        TileEvent::Lost => {
            fetch.inflight = None;
        },
        TileEvent::Failed => {
            if let Some((ix, iy)) = fetch.inflight {
                fetch.failed.push((fetch.generation, ix, iy));
            }
            fetch.inflight = None;
        },
        TileEvent::Made { generation, tile } => {
            fetch.inflight = None;
            if generation == fetch.generation {
                let mut cache: Vec<PreviewTile<T>> = Vec::new();
                std::mem::swap(&mut cache, &mut fetch.cache);
                let mut placed: Vec<PreviewTile<T>> = place_tile(cache, tile);
                evict_tile_cache(&mut placed, grid);
                fetch.cache = placed;
            }
        },
    }
}

/// A tile of the view that was made with the settings of the view is not missing any more, and
/// no tile of the view that was there is lost for it.
pub proof fn finished_tiles_are_not_missing<T>(
    cache: Seq<PreviewTile<T>>,
    tile: PreviewTile<T>,
    grid: VisibleTileGrid,
)
    requires
        wanted(tile, grid),
    ensures
        holds(with_tile(cache, tile, Some(grid)), tile.ix, tile.iy, grid.opt_hash),
        forall|ix: i32, iy: i32|
            grid.is_priority(ix, iy) && #[trigger] holds(cache, ix, iy, grid.opt_hash) ==> holds(
                with_tile(cache, tile, Some(grid)),
                ix,
                iy,
                grid.opt_hash,
            ),
{
    let placed = seq![tile] + elsewhere(cache, cache.len(), tile.ix, tile.iy);
    let left = with_tile(cache, tile, Some(grid));
    assert(placed[0] == tile);
    eviction_keeps_what_is_wanted(placed, grid, 0);
    let a = choose|a: int| 0 <= a < left.len() && left[a] == tile;
    assert(left[a].ix == tile.ix);
    placed_tile_is_the_only_one(cache, tile);
    assert forall|ix: i32, iy: i32|
        grid.is_priority(ix, iy) && #[trigger] holds(cache, ix, iy, grid.opt_hash) implies holds(
        left,
        ix,
        iy,
        grid.opt_hash,
    ) by {
        if !(ix == tile.ix && iy == tile.iy) {
            let k = choose|k: int|
                0 <= k < cache.len() && (#[trigger] cache[k]).ix == ix && cache[k].iy == iy
                    && cache[k].options_hash == grid.opt_hash;
            assert(placed.contains(cache[k]));
            let j = choose|j: int| 0 <= j < placed.len() && placed[j] == cache[k];
            eviction_keeps_what_is_wanted(placed, grid, j);
            let b = choose|b: int| 0 <= b < left.len() && left[b] == cache[k];
            assert(left[b].ix == ix);
        }
    }
}

} // verus!
